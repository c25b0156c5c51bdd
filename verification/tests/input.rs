use clm_vdisplay::input::clipboard::{cap_clipboard_text, ClipboardManager, CLIPBOARD_TEXT_CAP};
use clm_vdisplay::input::keyboard::{
    KeyAction, KeyboardRouter, ModifierState, KEYSYM_ALT_L, KEYSYM_CAPS_LOCK, KEYSYM_CONTROL_R,
    KEYSYM_RETURN, KEYSYM_SHIFT_L, KEYSYM_SUPER_R, KEYSYM_TAB,
};
use clm_vdisplay::input::{
    InputRouter, MouseAction, MouseRouter, MOUSE_BTN_LEFT, MOUSE_BTN_MIDDLE, MOUSE_BTN_RIGHT,
    MOUSE_WHEEL_DOWN, MOUSE_WHEEL_LEFT, MOUSE_WHEEL_RIGHT, MOUSE_WHEEL_UP,
};

#[test]
fn clipboard_cap_truncates_over_256_kib() {
    let over = "a".repeat(CLIPBOARD_TEXT_CAP + 100);
    let capped = cap_clipboard_text(over);
    assert_eq!(capped.len(), CLIPBOARD_TEXT_CAP);
}

#[test]
fn clipboard_cap_keeps_small_text() {
    let s = "hello\nclipboard".to_string();
    assert_eq!(cap_clipboard_text(s.clone()), s);
}

#[test]
fn clipboard_manager_caps_client_and_server() {
    let mut mgr = ClipboardManager::new();
    mgr.set_from_client("x".repeat(CLIPBOARD_TEXT_CAP + 50));
    assert_eq!(mgr.get_text().len(), CLIPBOARD_TEXT_CAP);

    mgr.set_from_server("y".repeat(CLIPBOARD_TEXT_CAP + 1));
    assert_eq!(mgr.get_text().len(), CLIPBOARD_TEXT_CAP);
}

#[test]
fn clipboard_cap_utf8_char_boundary() {
    // A character of two bytes: a cut in the middle of the last one must not
    // panic.
    let mut s = "\u{e9}".repeat(CLIPBOARD_TEXT_CAP / 2);
    s.push('\u{e9}');
    assert!(s.len() > CLIPBOARD_TEXT_CAP);
    let capped = cap_clipboard_text(s);
    assert!(capped.len() <= CLIPBOARD_TEXT_CAP);
    assert!(capped.is_char_boundary(capped.len()));
}

#[test]
fn clipboard_cap_is_the_longest_that_fits() {
    assert_eq!(CLIPBOARD_TEXT_CAP, 256 * 1024);
    // One byte, then characters of three bytes: two bytes are left over.
    let mut s = "a".to_string();
    s.push_str(&"\u{20ac}".repeat(CLIPBOARD_TEXT_CAP));
    let capped = cap_clipboard_text(s.clone());
    assert_eq!(capped.len(), 1 + (CLIPBOARD_TEXT_CAP - 1) / 3 * 3);
    assert!(s.starts_with(&capped));
    assert_eq!(cap_clipboard_text(capped.clone()), capped);
}

#[test]
fn clipboard_tells_what_it_kept() {
    let mut mgr = ClipboardManager::default();
    assert_eq!(mgr.get_text(), "");
    assert_eq!(mgr.set_from_client("one".to_string()), "one");
    assert_eq!(mgr.get_text(), "one");
    assert_eq!(mgr.set_from_server("two".to_string()), "two");
    assert_eq!(mgr.get_text(), "two");
}

#[test]
fn pointer_events() {
    let mut mouse = MouseRouter::new();
    assert_eq!(
        mouse.handle_pointer_event(MOUSE_BTN_LEFT | MOUSE_BTN_RIGHT, 10, 20),
        vec![
            MouseAction::Move { x: 10, y: 20 },
            MouseAction::ButtonDown { button: MOUSE_BTN_LEFT, x: 10, y: 20 },
            MouseAction::ButtonDown { button: MOUSE_BTN_RIGHT, x: 10, y: 20 },
        ]
    );
    assert_eq!(mouse.get_position(), (10, 20));
    assert_eq!(mouse.get_button_mask(), 5);
    // The same again does nothing.
    assert_eq!(mouse.handle_pointer_event(5, 10, 20), vec![]);
    assert_eq!(
        mouse.handle_pointer_event(MOUSE_BTN_MIDDLE, 10, 20),
        vec![
            MouseAction::ButtonUp { button: MOUSE_BTN_LEFT, x: 10, y: 20 },
            MouseAction::ButtonDown { button: MOUSE_BTN_MIDDLE, x: 10, y: 20 },
            MouseAction::ButtonUp { button: MOUSE_BTN_RIGHT, x: 10, y: 20 },
        ]
    );
    // Scrolling is not held down; opposite directions cancel out.
    let scroll = MouseAction::Scroll { delta_x: 1, delta_y: 1, x: 10, y: 20 };
    let mask = MOUSE_BTN_MIDDLE | MOUSE_WHEEL_UP | MOUSE_WHEEL_RIGHT;
    assert_eq!(mouse.handle_pointer_event(mask, 10, 20), vec![scroll]);
    assert_eq!(mouse.handle_pointer_event(mask, 10, 20), vec![scroll]);
    assert_eq!(mouse.get_state().button_mask, MOUSE_BTN_MIDDLE);
    let both = MOUSE_BTN_MIDDLE | MOUSE_WHEEL_UP | MOUSE_WHEEL_DOWN;
    assert_eq!(mouse.handle_pointer_event(both, 10, 20), vec![]);
    let down_left = MOUSE_BTN_MIDDLE | MOUSE_WHEEL_DOWN | MOUSE_WHEEL_LEFT;
    assert_eq!(
        mouse.handle_pointer_event(down_left, 10, 20),
        vec![MouseAction::Scroll { delta_x: -1, delta_y: -1, x: 10, y: 20 }]
    );
}

#[test]
fn key_symbols_and_characters() {
    assert_eq!(KeyboardRouter::keysym_to_char(0x41), Some('A'));
    assert_eq!(KeyboardRouter::keysym_to_char(0x0100_20AC), Some('\u{20ac}'));
    assert_eq!(KeyboardRouter::keysym_to_char(0x0100_D800), None);
    assert_eq!(KeyboardRouter::keysym_to_char(0x0110_FFFF), Some('\u{10ffff}'));
    assert_eq!(KeyboardRouter::keysym_to_char(KEYSYM_RETURN), Some('\n'));
    assert_eq!(KeyboardRouter::keysym_to_char(KEYSYM_TAB), Some('\t'));
    assert_eq!(KeyboardRouter::keysym_to_char(0x7F), None);
    assert_eq!(KeyboardRouter::keysym_to_char(KEYSYM_SHIFT_L), None);
    assert_eq!(KeyboardRouter::char_to_keysym('A'), 0x41);
    assert_eq!(KeyboardRouter::char_to_keysym('\u{e9}'), 0x0100_00E9);
    for c in ['A', '~', ' ', '\u{100}', '\u{20ac}', '\u{1f600}'] {
        assert_eq!(KeyboardRouter::keysym_to_char(KeyboardRouter::char_to_keysym(c)), Some(c));
    }
    // The characters that are left out of that rule.
    assert_eq!(KeyboardRouter::keysym_to_char(KeyboardRouter::char_to_keysym('\n')), None);
    assert_eq!(KeyboardRouter::keysym_to_char(KeyboardRouter::char_to_keysym('\u{e9}')), None);
}

#[test]
fn modifiers_are_followed() {
    let mut keyboard = KeyboardRouter::new();
    let action = keyboard.handle_key_event(true, KEYSYM_SHIFT_L);
    assert!(action.modifiers.shift && action.down && action.unicode_char.is_none());
    keyboard.handle_key_event(true, KEYSYM_CONTROL_R);
    keyboard.handle_key_event(true, KEYSYM_ALT_L);
    keyboard.handle_key_event(true, KEYSYM_SUPER_R);
    keyboard.handle_key_event(true, KEYSYM_CAPS_LOCK);
    keyboard.handle_key_event(false, KEYSYM_CAPS_LOCK);
    let all = ModifierState { shift: true, ctrl: true, alt: true, meta: true, caps_lock: true };
    assert_eq!(keyboard.get_modifiers(), all);
    keyboard.handle_key_event(false, KEYSYM_SHIFT_L);
    assert!(!keyboard.get_modifiers().shift);
    keyboard.handle_key_event(true, KEYSYM_CAPS_LOCK);
    assert!(!keyboard.get_modifiers().caps_lock);
}

#[test]
fn text_is_typed() {
    let mut keyboard = KeyboardRouter::default();
    keyboard.handle_key_event(true, KEYSYM_SHIFT_L);
    let before = keyboard.get_modifiers();
    let actions = keyboard.inject_text("a\u{20ac}");
    let key = |down: bool, key_sym: u32, c: char| KeyAction {
        down,
        key_sym,
        modifiers: before,
        unicode_char: Some(c),
    };
    assert_eq!(
        actions,
        vec![
            key(true, 0x61, 'a'),
            key(false, 0x61, 'a'),
            key(true, 0x0100_20AC, '\u{20ac}'),
            key(false, 0x0100_20AC, '\u{20ac}'),
        ]
    );
    assert_eq!(keyboard.get_modifiers(), before);
}

#[test]
fn a_new_router_is_empty() {
    let router = InputRouter::new();
    assert_eq!(router.mouse.get_position(), (0, 0));
    assert_eq!(router.keyboard.get_modifiers(), ModifierState::default());
    assert_eq!(router.clipboard.get_text(), "");
}
