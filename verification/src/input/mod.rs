//! Input from clients: mouse, keyboard and clipboard.

pub mod clipboard;
pub mod keyboard;
pub mod mouse;

pub use clipboard::{cap_clipboard_text, ClipboardManager, CLIPBOARD_TEXT_CAP};
pub use keyboard::{KeyAction, KeyboardRouter, ModifierState};
pub use mouse::{
    MouseAction, MouseRouter, MouseState, MOUSE_BTN_LEFT, MOUSE_BTN_MIDDLE, MOUSE_BTN_RIGHT,
    MOUSE_WHEEL_DOWN, MOUSE_WHEEL_LEFT, MOUSE_WHEEL_RIGHT, MOUSE_WHEEL_UP,
};

use vstd::prelude::*;

verus! {

/// Everything that clients can put in.
#[derive(Debug)]
pub struct InputRouter {
    pub mouse: MouseRouter,
    pub keyboard: KeyboardRouter,
    pub clipboard: ClipboardManager,
}

impl InputRouter {
    /// Nothing put in yet.
    pub fn new() -> (r: Self)
        ensures
            r.mouse.state == (MouseState { x: 0, y: 0, button_mask: 0 }),
            r.keyboard.modifiers == keyboard::no_modifiers(),
            r.clipboard.text@ == Seq::<char>::empty(),
    {
        InputRouter {
            mouse: MouseRouter::new(),
            keyboard: KeyboardRouter::new(),
            clipboard: ClipboardManager::new(),
        }
    }
}

impl Default for InputRouter {
    fn default() -> (r: Self)
        ensures
            r.mouse.state == (MouseState { x: 0, y: 0, button_mask: 0 }),
            r.keyboard.modifiers == keyboard::no_modifiers(),
            r.clipboard.text@ == Seq::<char>::empty(),
    {
        InputRouter::new()
    }
}

} // verus!
