//! Key events: key symbols, characters and modifiers.

use crate::text::chars_of;
use vstd::prelude::*;

verus! {

pub const KEYSYM_BACKSPACE: u32 = 0xFF08;

pub const KEYSYM_TAB: u32 = 0xFF09;

pub const KEYSYM_LINEFEED: u32 = 0xFF0A;

pub const KEYSYM_CLEAR: u32 = 0xFF0B;

pub const KEYSYM_RETURN: u32 = 0xFF0D;

pub const KEYSYM_PAUSE: u32 = 0xFF13;

pub const KEYSYM_SCROLL_LOCK: u32 = 0xFF14;

pub const KEYSYM_SYS_REQ: u32 = 0xFF15;

pub const KEYSYM_ESCAPE: u32 = 0xFF1B;

pub const KEYSYM_DELETE: u32 = 0xFFFF;

pub const KEYSYM_HOME: u32 = 0xFF50;

pub const KEYSYM_LEFT: u32 = 0xFF51;

pub const KEYSYM_UP: u32 = 0xFF52;

pub const KEYSYM_RIGHT: u32 = 0xFF53;

pub const KEYSYM_DOWN: u32 = 0xFF54;

pub const KEYSYM_PAGE_UP: u32 = 0xFF55;

pub const KEYSYM_PAGE_DOWN: u32 = 0xFF56;

pub const KEYSYM_END: u32 = 0xFF57;

pub const KEYSYM_INSERT: u32 = 0xFF63;

pub const KEYSYM_F1: u32 = 0xFFBE;

pub const KEYSYM_F2: u32 = 0xFFBF;

pub const KEYSYM_F3: u32 = 0xFFC0;

pub const KEYSYM_F4: u32 = 0xFFC1;

pub const KEYSYM_F5: u32 = 0xFFC2;

pub const KEYSYM_F6: u32 = 0xFFC3;

pub const KEYSYM_F7: u32 = 0xFFC4;

pub const KEYSYM_F8: u32 = 0xFFC5;

pub const KEYSYM_F9: u32 = 0xFFC6;

pub const KEYSYM_F10: u32 = 0xFFC7;

pub const KEYSYM_F11: u32 = 0xFFC8;

pub const KEYSYM_F12: u32 = 0xFFC9;

pub const KEYSYM_SHIFT_L: u32 = 0xFFE1;

pub const KEYSYM_SHIFT_R: u32 = 0xFFE2;

pub const KEYSYM_CONTROL_L: u32 = 0xFFE3;

pub const KEYSYM_CONTROL_R: u32 = 0xFFE4;

pub const KEYSYM_CAPS_LOCK: u32 = 0xFFE5;

pub const KEYSYM_META_L: u32 = 0xFFE7;

pub const KEYSYM_META_R: u32 = 0xFFE8;

pub const KEYSYM_ALT_L: u32 = 0xFFE9;

pub const KEYSYM_ALT_R: u32 = 0xFFEA;

pub const KEYSYM_SUPER_L: u32 = 0xFFEB;

pub const KEYSYM_SUPER_R: u32 = 0xFFEC;

/// First of the key symbols that stand for a Unicode character.
pub const KEYSYM_UNICODE: u32 = 0x0100_0000;

/// Which modifiers are in effect.
#[derive(Debug, Clone, Copy, PartialEq, Eq, Structural)]
pub struct ModifierState {
    pub shift: bool,
    pub ctrl: bool,
    pub alt: bool,
    pub meta: bool,
    pub caps_lock: bool,
}

impl Default for ModifierState {
    fn default() -> (r: Self)
        ensures
            r == no_modifiers(),
    {
        ModifierState { shift: false, ctrl: false, alt: false, meta: false, caps_lock: false }
    }
}

pub open spec fn no_modifiers() -> ModifierState {
    ModifierState { shift: false, ctrl: false, alt: false, meta: false, caps_lock: false }
}

/// A key went down or up.
#[derive(Debug, Clone, PartialEq, Eq)]
pub struct KeyAction {
    pub down: bool,
    pub key_sym: u32,
    /// The modifiers, this key included.
    pub modifiers: ModifierState,
    /// The character that the key stands for, if any.
    pub unicode_char: Option<char>,
}

/// `char::from_u32`: the character with the given code, if there is one.
pub assume_specification[ char::from_u32 ](i: u32) -> (c: Option<char>)
    ensures
        c == if vstd::utf8::is_scalar(i) {
            Some(i as char)
        } else {
            None
        },
;

/// The character that a key symbol stands for.
pub open spec fn char_of(key_sym: u32) -> Option<char> {
    if 0x20 <= key_sym <= 0x7E {
        Some(key_sym as char)
    } else if 0x0100_0100 <= key_sym <= 0x0110_FFFF {
        let code = (key_sym - KEYSYM_UNICODE) as u32;
        if vstd::utf8::is_scalar(code) {
            Some(code as char)
        } else {
            None
        }
    } else if key_sym == KEYSYM_RETURN {
        Some('\n')
    } else if key_sym == KEYSYM_TAB {
        Some('\t')
    } else {
        None
    }
}

/// The key symbol for a character.
pub open spec fn keysym_of(c: char) -> u32 {
    if c as u32 <= 0x7E {
        c as u32
    } else {
        (KEYSYM_UNICODE + c as u32) as u32
    }
}

/// The modifiers after a key went down or up.
pub open spec fn modifiers_after(m: ModifierState, down: bool, key_sym: u32) -> ModifierState {
    if key_sym == KEYSYM_SHIFT_L || key_sym == KEYSYM_SHIFT_R {
        ModifierState { shift: down, ..m }
    } else if key_sym == KEYSYM_CONTROL_L || key_sym == KEYSYM_CONTROL_R {
        ModifierState { ctrl: down, ..m }
    } else if key_sym == KEYSYM_ALT_L || key_sym == KEYSYM_ALT_R {
        ModifierState { alt: down, ..m }
    } else if key_sym == KEYSYM_SUPER_L || key_sym == KEYSYM_SUPER_R || key_sym == KEYSYM_META_L
        || key_sym == KEYSYM_META_R {
        ModifierState { meta: down, ..m }
    } else if key_sym == KEYSYM_CAPS_LOCK && down {
        ModifierState { caps_lock: !m.caps_lock, ..m }
    } else {
        m
    }
}

/// What a key event means.
pub open spec fn key_action(m: ModifierState, down: bool, key_sym: u32) -> KeyAction {
    KeyAction {
        down,
        key_sym,
        modifiers: modifiers_after(m, down, key_sym),
        unicode_char: char_of(key_sym),
    }
}

/// The events that type a text: each character's key down, then up.
pub open spec fn typed(m: ModifierState, text: Seq<char>) -> Seq<KeyAction> {
    Seq::new(
        2 * text.len(),
        |i: int|
            KeyAction {
                down: i % 2 == 0,
                key_sym: keysym_of(text[i / 2]),
                modifiers: m,
                unicode_char: char_of(keysym_of(text[i / 2])),
            },
    )
}

/// Follows the modifiers.
#[derive(Debug)]
pub struct KeyboardRouter {
    pub modifiers: ModifierState,
}

impl KeyboardRouter {
    /// No modifier in effect.
    pub fn new() -> (r: Self)
        ensures
            r.modifiers == no_modifiers(),
    {
        KeyboardRouter {
            modifiers: ModifierState {
                shift: false,
                ctrl: false,
                alt: false,
                meta: false,
                caps_lock: false,
            },
        }
    }

    pub fn get_modifiers(&self) -> (r: ModifierState)
        ensures
            r == self.modifiers,
    {
        self.modifiers
    }

    /// The character that a key symbol stands for: printable ASCII, the Unicode
    /// range, return and tab.
    pub fn keysym_to_char(key_sym: u32) -> (r: Option<char>)
        ensures
            r == char_of(key_sym),
    {
        if 0x20 <= key_sym && key_sym <= 0x7E {
            char::from_u32(key_sym)
        } else if 0x0100_0100 <= key_sym && key_sym <= 0x0110_FFFF {
            char::from_u32(key_sym - KEYSYM_UNICODE)
        } else if key_sym == KEYSYM_RETURN {
            Some('\n')
        } else if key_sym == KEYSYM_TAB {
            Some('\t')
        } else {
            None
        }
    }

    /// The key symbol for a character: ASCII as it is, all else in the Unicode
    /// range.
    pub fn char_to_keysym(ch: char) -> (r: u32)
        ensures
            r == keysym_of(ch),
    {
        let code: u32 = ch as u32;
        if code <= 0x7E {
            code
        } else {
            KEYSYM_UNICODE + code
        }
    }

    /// Takes a key event in and says what it means.
    pub fn handle_key_event(&mut self, down: bool, key_sym: u32) -> (action: KeyAction)
        ensures
            action == key_action(old(self).modifiers, down, key_sym),
            final(self).modifiers == modifiers_after(old(self).modifiers, down, key_sym),
    {
        if key_sym == KEYSYM_SHIFT_L || key_sym == KEYSYM_SHIFT_R {
            self.modifiers.shift = down;
        } else if key_sym == KEYSYM_CONTROL_L || key_sym == KEYSYM_CONTROL_R {
            self.modifiers.ctrl = down;
        } else if key_sym == KEYSYM_ALT_L || key_sym == KEYSYM_ALT_R {
            self.modifiers.alt = down;
        } else if key_sym == KEYSYM_SUPER_L || key_sym == KEYSYM_SUPER_R || key_sym
            == KEYSYM_META_L || key_sym == KEYSYM_META_R {
            self.modifiers.meta = down;
        } else if key_sym == KEYSYM_CAPS_LOCK && down {
            self.modifiers.caps_lock = !self.modifiers.caps_lock;
        }
        KeyAction {
            down,
            key_sym,
            modifiers: self.modifiers,
            unicode_char: Self::keysym_to_char(key_sym),
        }
    }

    /// The key events that type a text. They leave the modifiers alone.
    pub fn inject_text(&mut self, text: &str) -> (actions: Vec<KeyAction>)
        ensures
            actions@ == typed(old(self).modifiers, text@),
            final(self).modifiers == old(self).modifiers,
    {
        let ghost m = self.modifiers;
        let chars = chars_of(text);
        let mut actions: Vec<KeyAction> = Vec::new();
        let mut i: usize = 0;
        while i < chars.len()
            invariant
                i <= chars@.len(),
                chars@ == text@,
                self.modifiers == m,
                actions@.len() == 2 * i,
                forall|j: int|
                    0 <= j < 2 * i ==> #[trigger] actions@[j] == typed(m, text@)[j],
            decreases chars@.len() - i,
        {
            let c = chars[i];
            proof {
                law_typing_keeps_modifiers(c, m, true);
                law_typing_keeps_modifiers(c, m, false);
            }
            let keysym: u32 = Self::char_to_keysym(c);
            actions.push(self.handle_key_event(true, keysym));
            actions.push(self.handle_key_event(false, keysym));
            assert((2 * i) / 2 == i && (2 * i + 1) / 2 == i);
            i = i + 1;
        }
        assert(actions@ =~= typed(m, text@));
        actions
    }
}

impl Default for KeyboardRouter {
    fn default() -> (r: Self)
        ensures
            r.modifiers == no_modifiers(),
    {
        KeyboardRouter::new()
    }
}

/// The key symbol for a character stands for that character. This leaves out
/// the control characters and those from U+007F to U+00FF, whose key symbols
/// stand for none.
pub proof fn law_keysym_round_trip(c: char)
    requires
        0x20 <= c as u32 <= 0x7E || 0x100 <= c as u32,
    ensures
        char_of(keysym_of(c)) == Some(c),
{
    vstd::utf8::char_is_scalar(c);
}

/// The key symbol of a character is never that of a modifier.
pub proof fn law_typing_keeps_modifiers(c: char, m: ModifierState, down: bool)
    ensures
        modifiers_after(m, down, keysym_of(c)) == m,
{
}

/// A modifier key that goes down and up again is no longer in effect; caps
/// lock is, until it is pressed again.
pub proof fn law_modifier_released(m: ModifierState, key_sym: u32)
    requires
        !m.shift && !m.ctrl && !m.alt && !m.meta,
    ensures
        ({
            let after = modifiers_after(modifiers_after(m, true, key_sym), false, key_sym);
            &&& !after.shift && !after.ctrl && !after.alt && !after.meta
            &&& after.caps_lock == (if key_sym == KEYSYM_CAPS_LOCK {
                !m.caps_lock
            } else {
                m.caps_lock
            })
        }),
{
}

/// Which modifier a key is: 1 shift, 2 control, 3 alt, 4 meta, 5 caps lock, 0
/// none of them.
pub open spec fn modifier_of(key_sym: u32) -> int {
    if key_sym == 0xFFE1 || key_sym == 0xFFE2 {
        1
    } else if key_sym == 0xFFE3 || key_sym == 0xFFE4 {
        2
    } else if key_sym == 0xFFE9 || key_sym == 0xFFEA {
        3
    } else if 0xFFE7 <= key_sym <= 0xFFE8 || 0xFFEB <= key_sym <= 0xFFEC {
        4
    } else if key_sym == 0xFFE5 {
        5
    } else {
        0
    }
}

/// Each modifier is in effect while its key is down, caps lock from one press
/// to the next, and no key touches another's modifier.
pub proof fn law_modifiers_follow_their_keys(m: ModifierState, down: bool, key_sym: u32)
    ensures
        ({
            let after = modifiers_after(m, down, key_sym);
            let k = modifier_of(key_sym);
            &&& after.shift == if k == 1 { down } else { m.shift }
            &&& after.ctrl == if k == 2 { down } else { m.ctrl }
            &&& after.alt == if k == 3 { down } else { m.alt }
            &&& after.meta == if k == 4 { down } else { m.meta }
            &&& after.caps_lock == (m.caps_lock != (k == 5 && down))
        }),
{
}

/// A key event is passed on as it came: the same key, up or down as it was, with
/// the modifiers as they are then and the character that the key stands for.
pub proof fn law_key_events_are_passed_on(m: ModifierState, down: bool, key_sym: u32)
    ensures
        ({
            let a = key_action(m, down, key_sym);
            &&& a.down == down
            &&& a.key_sym == key_sym
            &&& a.modifiers == modifiers_after(m, down, key_sym)
            &&& 0x20 <= key_sym <= 0x7E ==> a.unicode_char == Some(key_sym as char)
            &&& key_sym == 0xFF0D ==> a.unicode_char == Some('\n')
            &&& key_sym == 0xFF09 ==> a.unicode_char == Some('\t')
            &&& 0x7E < key_sym < 0x0100_0100 && key_sym != 0xFF0D && key_sym != 0xFF09
                ==> a.unicode_char is None
            &&& key_sym < 0x20 ==> a.unicode_char is None
            &&& key_sym > 0x0110_FFFF ==> a.unicode_char is None
        }),
{
}

/// The key symbol of a character: its code, or in the Unicode range its code on
/// top of 2^24.
pub proof fn law_keysym_codes(c: char)
    ensures
        keysym_of(c) == c as u32 || keysym_of(c) == 0x0100_0000 + c as u32,
        keysym_of(c) == c as u32 <==> c as u32 <= 0x7E,
{
    vstd::utf8::char_is_scalar(c);
}

/// Typing a text presses and releases the key of each character in turn; whoever
/// reads the characters of the presses reads the text, but for control characters
/// and those from U+007F to U+00FF.
pub proof fn law_typed_text_is_read_back(m: ModifierState, text: Seq<char>, i: int)
    requires
        0 <= i < text.len(),
    ensures
        ({
            let t = typed(m, text);
            &&& t.len() == 2 * text.len()
            &&& t[2 * i].down
            &&& !t[2 * i + 1].down
            &&& t[2 * i].key_sym == t[2 * i + 1].key_sym
            &&& t[2 * i].modifiers == m && t[2 * i + 1].modifiers == m
            &&& 0x20 <= text[i] as u32 <= 0x7E || 0x100 <= text[i] as u32
                ==> t[2 * i].unicode_char == Some(text[i])
        }),
{
    assert((2 * i) / 2 == i && (2 * i + 1) / 2 == i);
    if 0x20 <= text[i] as u32 <= 0x7E || 0x100 <= text[i] as u32 {
        law_keysym_round_trip(text[i]);
    }
}

} // verus!
