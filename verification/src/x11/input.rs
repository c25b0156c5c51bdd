//! From mouse and key events to the fake input that XTest injects.

use crate::input::mouse;
use crate::input::mouse::MouseAction;
use std::collections::HashMap;
use vstd::prelude::*;

verus! {

/// One fake input event for the X server.
#[derive(Debug, Clone, Copy, PartialEq, Eq, Structural)]
pub enum FakeInput {
    Motion { x: i16, y: i16 },
    Button { press: bool, button: u8, x: i16, y: i16 },
    Key { press: bool, keycode: u8 },
}

/// Turns events into fake input: knows which key gives which symbol, and which
/// buttons were last down.
#[derive(Debug)]
pub struct X11InputInjector {
    pub root: u32,
    pub keysym_to_keycode: HashMap<u32, u8>,
    pub prev_button_mask: u8,
}

/// The key code of entry `i` of a keyboard mapping with `per_keycode` symbols
/// to a key, the first key being `min_keycode`.
pub open spec fn keycode_at(min_keycode: u8, per_keycode: nat, i: int) -> u8 {
    min_keycode.wrapping_add((i / per_keycode as int) as u8)
}

/// Which key gives each symbol, after the first `n` entries of a keyboard
/// mapping: the first key that has it. Zero is no symbol.
pub open spec fn keymap(syms: Seq<u32>, min_keycode: u8, per_keycode: nat, n: nat) -> Map<u32, u8>
    decreases n,
{
    if n == 0 {
        Map::empty()
    } else {
        let before = keymap(syms, min_keycode, per_keycode, (n - 1) as nat);
        let sym = syms[n - 1];
        if sym == 0 || before.dom().contains(sym) {
            before
        } else {
            before.insert(sym, keycode_at(min_keycode, per_keycode, n - 1))
        }
    }
}

/// Number of key codes from `min_keycode` to `max_keycode`.
pub fn keycode_count(min_keycode: u8, max_keycode: u8) -> (r: u8)
    requires
        max_keycode - min_keycode < 255,
    ensures
        r == if max_keycode >= min_keycode {
            max_keycode - min_keycode + 1
        } else {
            1
        },
{
    max_keycode.saturating_sub(min_keycode) + 1
}

/// Reads a keyboard mapping.
pub fn build_keymap(keysyms: &[u32], min_keycode: u8, per_keycode: usize) -> (r: HashMap<u32, u8>)
    requires
        per_keycode > 0,
    ensures
        r@ == keymap(keysyms@, min_keycode, per_keycode as nat, keysyms@.len()),
{
    let mut map: HashMap<u32, u8> = HashMap::new();
    let size: usize = keysyms.len();
    let mut i: usize = 0;
    assert(map@ =~= Map::<u32, u8>::empty());
    while i < size
        invariant
            i <= size,
            size == keysyms@.len(),
            per_keycode > 0,
            map@ == keymap(keysyms@, min_keycode, per_keycode as nat, i as nat),
        decreases size - i,
    {
        let sym: u32 = keysyms[i];
        let keycode: u8 = min_keycode.wrapping_add((i / per_keycode) as u8);
        if sym != 0 && !map.contains_key(&sym) {
            map.insert(sym, keycode);
        }
        i = i + 1;
    }
    map
}

/// A press or release of one of the seven buttons, where it changed.
pub open spec fn button_diff(before: u8, after: u8, flag: u8, button: u8, x: u16, y: u16) -> Seq<
    FakeInput,
> {
    if !mouse::is_down(before, flag) && mouse::is_down(after, flag) {
        seq![FakeInput::Button { press: true, button, x: x as i16, y: y as i16 }]
    } else if mouse::is_down(before, flag) && !mouse::is_down(after, flag) {
        seq![FakeInput::Button { press: false, button, x: x as i16, y: y as i16 }]
    } else {
        Seq::empty()
    }
}

/// A pointer event as fake input: the motion, then each of the seven buttons
/// that changed.
pub open spec fn pointer_inputs(before: u8, mask: u8, x: u16, y: u16) -> Seq<FakeInput> {
    seq![FakeInput::Motion { x: x as i16, y: y as i16 }] + button_diff(before, mask, 0x01, 1, x, y)
        + button_diff(before, mask, 0x02, 2, x, y) + button_diff(before, mask, 0x04, 3, x, y)
        + button_diff(before, mask, 0x08, 4, x, y) + button_diff(before, mask, 0x10, 5, x, y)
        + button_diff(before, mask, 0x20, 6, x, y) + button_diff(before, mask, 0x40, 7, x, y)
}

/// A button pressed and released `n` times.
pub open spec fn clicks(button: u8, n: nat, x: u16, y: u16) -> Seq<FakeInput> {
    Seq::new(
        2 * n,
        |i: int|
            FakeInput::Button { press: i % 2 == 0, button, x: x as i16, y: y as i16 },
    )
}

/// Scrolling in one direction: `plus` is clicked for positive steps, `minus`
/// for negative ones.
pub open spec fn scroll_clicks(delta: int, plus: u8, minus: u8, x: u16, y: u16) -> Seq<FakeInput> {
    if delta >= 0 {
        clicks(plus, delta as nat, x, y)
    } else {
        clicks(minus, (-delta) as nat, x, y)
    }
}

/// Scrolling as fake input: up or down, then left or right.
pub open spec fn scroll_inputs(delta_x: int, delta_y: int, x: u16, y: u16) -> Seq<FakeInput> {
    scroll_clicks(delta_y, 4, 5, x, y) + scroll_clicks(delta_x, 7, 6, x, y)
}

/// The X button for a button bit.
pub open spec fn x_button(button: u8) -> u8 {
    if button == 2 {
        2
    } else if button == 4 {
        3
    } else {
        1
    }
}

/// A mouse action as fake input.
pub open spec fn action_inputs(action: MouseAction) -> Seq<FakeInput> {
    match action {
        MouseAction::Move { x, y } => seq![FakeInput::Motion { x: x as i16, y: y as i16 }],
        MouseAction::ButtonDown { button, x, y } => seq![
            FakeInput::Button {
                press: true,
                button: x_button(button),
                x: x as i16,
                y: y as i16,
            },
        ],
        MouseAction::ButtonUp { button, x, y } => seq![
            FakeInput::Button {
                press: false,
                button: x_button(button),
                x: x as i16,
                y: y as i16,
            },
        ],
        MouseAction::Scroll { delta_x, delta_y, x, y } => scroll_inputs(
            delta_x as int,
            delta_y as int,
            x,
            y,
        ),
    }
}

/// A key going down or up as fake input, given which key gives which symbol.
pub open spec fn key_input(keys: Map<u32, u8>, key_sym: u32, down: bool) -> Option<FakeInput> {
    if keys.dom().contains(key_sym) {
        Some(FakeInput::Key { press: down, keycode: keys[key_sym] })
    } else {
        None
    }
}

/// A press or release of one button.
fn mouse_button_input(button: u8, down: bool, x: u16, y: u16) -> (r: FakeInput)
    ensures
        r == (FakeInput::Button { press: down, button, x: x as i16, y: y as i16 }),
{
    FakeInput::Button { press: down, button, x: x as i16, y: y as i16 }
}

fn push_diff(
    out: &mut Vec<FakeInput>,
    before: u8,
    after: u8,
    flag: u8,
    button: u8,
    x: u16,
    y: u16,
)
    ensures
        final(out)@ == old(out)@ + button_diff(before, after, flag, button, x, y),
{
    let was_down = before & flag != 0;
    let is_down = after & flag != 0;
    if !was_down && is_down {
        out.push(mouse_button_input(button, true, x, y));
    } else if was_down && !is_down {
        out.push(mouse_button_input(button, false, x, y));
    }
    assert(out@ =~= old(out)@ + button_diff(before, after, flag, button, x, y));
}

fn push_clicks(out: &mut Vec<FakeInput>, button: u8, n: u32, x: u16, y: u16)
    ensures
        final(out)@ == old(out)@ + clicks(button, n as nat, x, y),
{
    let mut i: u32 = 0;
    assert(out@ =~= old(out)@ + clicks(button, 0, x, y));
    while i < n
        invariant
            i <= n,
            out@ == old(out)@ + clicks(button, i as nat, x, y),
        decreases n - i,
    {
        out.push(mouse_button_input(button, true, x, y));
        out.push(mouse_button_input(button, false, x, y));
        i = i + 1;
        assert(out@ =~= old(out)@ + clicks(button, i as nat, x, y));
    }
}

/// Scrolling as fake input.
fn mouse_scroll_inputs(delta_x: i32, delta_y: i32, x: u16, y: u16) -> (r: Vec<FakeInput>)
    requires
        delta_x > i32::MIN,
        delta_y > i32::MIN,
    ensures
        r@ == scroll_inputs(delta_x as int, delta_y as int, x, y),
{
    let mut out: Vec<FakeInput> = Vec::new();
    if delta_y >= 0 {
        push_clicks(&mut out, 4, delta_y as u32, x, y);
    } else {
        push_clicks(&mut out, 5, (-delta_y) as u32, x, y);
    }
    if delta_x >= 0 {
        push_clicks(&mut out, 7, delta_x as u32, x, y);
    } else {
        push_clicks(&mut out, 6, (-delta_x) as u32, x, y);
    }
    assert(out@ =~= scroll_inputs(delta_x as int, delta_y as int, x, y));
    out
}

/// A mouse action as fake input.
pub fn mouse_action_inputs(action: MouseAction) -> (r: Vec<FakeInput>)
    requires
        action matches MouseAction::Scroll { delta_x, delta_y, .. } ==> delta_x > i32::MIN
            && delta_y > i32::MIN,
    ensures
        r@ == action_inputs(action),
{
    let mut out: Vec<FakeInput> = Vec::new();
    match action {
        MouseAction::Move { x, y } => {
            out.push(FakeInput::Motion { x: x as i16, y: y as i16 });
        },
        MouseAction::ButtonDown { button, x, y } => {
            out.push(mouse_button_input(x_button_of(button), true, x, y));
        },
        MouseAction::ButtonUp { button, x, y } => {
            out.push(mouse_button_input(x_button_of(button), false, x, y));
        },
        MouseAction::Scroll { delta_x, delta_y, x, y } => {
            return mouse_scroll_inputs(delta_x, delta_y, x, y);
        },
    }
    assert(out@ =~= action_inputs(action));
    out
}

fn x_button_of(button: u8) -> (r: u8)
    ensures
        r == x_button(button),
{
    match button {
        2 => 2,
        4 => 3,
        _ => 1,
    }
}

impl X11InputInjector {
    /// An injector for the given root window and keyboard mapping.
    pub fn new(root: u32, keysyms: &[u32], min_keycode: u8, per_keycode: usize) -> (r: Self)
        requires
            per_keycode > 0,
        ensures
            r.root == root,
            r.keysym_to_keycode@ == keymap(
                keysyms@,
                min_keycode,
                per_keycode as nat,
                keysyms@.len(),
            ),
            r.prev_button_mask == 0,
    {
        X11InputInjector {
            root,
            keysym_to_keycode: build_keymap(keysyms, min_keycode, per_keycode),
            prev_button_mask: 0,
        }
    }

    /// Takes in another keyboard mapping.
    pub fn refresh_keymap(&mut self, keysyms: &[u32], min_keycode: u8, per_keycode: usize)
        requires
            per_keycode > 0,
        ensures
            final(self).root == old(self).root,
            final(self).prev_button_mask == old(self).prev_button_mask,
            final(self).keysym_to_keycode@ == keymap(
                keysyms@,
                min_keycode,
                per_keycode as nat,
                keysyms@.len(),
            ),
    {
        self.keysym_to_keycode = build_keymap(keysyms, min_keycode, per_keycode);
    }

    /// A pointer event as fake input; the buttons are compared with those of
    /// the event before.
    pub fn send_pointer_event(&mut self, x: u16, y: u16, button_mask: u8) -> (r: Vec<FakeInput>)
        ensures
            r@ == pointer_inputs(old(self).prev_button_mask, button_mask, x, y),
            *final(self) == (X11InputInjector { prev_button_mask: button_mask, ..*old(self) }),
    {
        let before: u8 = self.prev_button_mask;
        self.prev_button_mask = button_mask;
        let mut out: Vec<FakeInput> = Vec::new();
        out.push(FakeInput::Motion { x: x as i16, y: y as i16 });
        assert(out@ =~= seq![FakeInput::Motion { x: x as i16, y: y as i16 }]);
        push_diff(&mut out, before, button_mask, 0x01, 1, x, y);
        push_diff(&mut out, before, button_mask, 0x02, 2, x, y);
        push_diff(&mut out, before, button_mask, 0x04, 3, x, y);
        push_diff(&mut out, before, button_mask, 0x08, 4, x, y);
        push_diff(&mut out, before, button_mask, 0x10, 5, x, y);
        push_diff(&mut out, before, button_mask, 0x20, 6, x, y);
        push_diff(&mut out, before, button_mask, 0x40, 7, x, y);
        out
    }

    /// A press or release of one button as fake input.
    pub fn send_mouse_button(&self, button: u8, down: bool, x: u16, y: u16) -> (r: FakeInput)
        ensures
            r == (FakeInput::Button { press: down, button, x: x as i16, y: y as i16 }),
    {
        mouse_button_input(button, down, x, y)
    }

    /// Scrolling as fake input: so many clicks up or down, then so many left or
    /// right.
    pub fn send_mouse_scroll(&self, delta_x: i32, delta_y: i32, x: u16, y: u16) -> (r: Vec<
        FakeInput,
    >)
        requires
            delta_x > i32::MIN,
            delta_y > i32::MIN,
        ensures
            r@ == scroll_inputs(delta_x as int, delta_y as int, x, y),
    {
        mouse_scroll_inputs(delta_x, delta_y, x, y)
    }

    /// A key event as fake input; `None` where no key gives the symbol.
    pub fn send_key_event(&self, key_sym: u32, down: bool) -> (r: Option<FakeInput>)
        ensures
            r == key_input(self.keysym_to_keycode@, key_sym, down),
    {
        match self.keysym_to_keycode.get(&key_sym) {
            Some(code) => Some(FakeInput::Key { press: down, keycode: *code }),
            None => None,
        }
    }
}

/// A symbol is given by the first key that has it: each entry of the mapping
/// that no earlier entry repeats is found under its own key.
pub proof fn law_first_key_wins(
    syms: Seq<u32>,
    min_keycode: u8,
    per_keycode: nat,
    n: nat,
    i: int,
)
    requires
        0 <= i < n <= syms.len(),
        syms[i] != 0,
        forall|j: int| 0 <= j < i ==> syms[j] != syms[i],
    ensures
        keymap(syms, min_keycode, per_keycode, n).dom().contains(syms[i]),
        keymap(syms, min_keycode, per_keycode, n)[syms[i]] == keycode_at(
            min_keycode,
            per_keycode,
            i,
        ),
    decreases n,
{
    if i < n - 1 {
        law_first_key_wins(syms, min_keycode, per_keycode, (n - 1) as nat, i);
    } else if keymap(syms, min_keycode, per_keycode, i as nat).dom().contains(syms[i]) {
        law_mapped_symbols_occur(syms, min_keycode, per_keycode, i as nat, syms[i]);
    }
}

/// Only symbols that the mapping has, and never zero, are given by a key.
pub proof fn law_mapped_symbols_occur(
    syms: Seq<u32>,
    min_keycode: u8,
    per_keycode: nat,
    n: nat,
    sym: u32,
)
    requires
        n <= syms.len(),
        keymap(syms, min_keycode, per_keycode, n).dom().contains(sym),
    ensures
        sym != 0,
        exists|j: int| 0 <= j < n && syms[j] == sym,
    decreases n,
{
    if n > 0 {
        let before = keymap(syms, min_keycode, per_keycode, (n - 1) as nat);
        if before.dom().contains(sym) {
            law_mapped_symbols_occur(syms, min_keycode, per_keycode, (n - 1) as nat, sym);
            let j = choose|j: int| 0 <= j < n - 1 && syms[j] == sym;
            assert(syms[j] == sym);
        } else {
            assert(syms[n - 1] == sym);
        }
    }
}

/// Every scroll step is a full click: as many releases as presses.
pub proof fn law_scroll_is_made_of_clicks(delta: int, plus: u8, minus: u8, x: u16, y: u16, i: int)
    requires
        0 <= i < scroll_clicks(delta, plus, minus, x, y).len(),
    ensures
        scroll_clicks(delta, plus, minus, x, y).len() % 2 == 0,
        scroll_clicks(delta, plus, minus, x, y)[i] matches FakeInput::Button { press, button, .. }
            && press == (i % 2 == 0) && button == if delta >= 0 {
            plus
        } else {
            minus
        },
{
}

/// What one input event does to a pointer of the X server: where it is, and
/// which of its seven buttons are down, the first in the lowest bit.
pub struct XPointer {
    pub x: i16,
    pub y: i16,
    pub down: u8,
}

/// The bit of a button, from 1 to 7.
pub open spec fn button_bit(button: u8) -> u8 {
    if button == 1 {
        1
    } else if button == 2 {
        2
    } else if button == 3 {
        4
    } else if button == 4 {
        8
    } else if button == 5 {
        16
    } else if button == 6 {
        32
    } else {
        64
    }
}

/// A pointer after one input event.
pub open spec fn injected(p: XPointer, input: FakeInput) -> XPointer {
    match input {
        FakeInput::Motion { x, y } => XPointer { x, y, ..p },
        FakeInput::Button { press, button, .. } => XPointer {
            down: if press {
                p.down | button_bit(button)
            } else {
                p.down & !button_bit(button)
            },
            ..p
        },
        FakeInput::Key { .. } => p,
    }
}

/// A pointer after some input events, one after the other.
pub open spec fn all_injected(p: XPointer, inputs: Seq<FakeInput>) -> XPointer
    decreases inputs.len(),
{
    if inputs.len() == 0 {
        p
    } else {
        injected(all_injected(p, inputs.drop_last()), inputs.last())
    }
}

proof fn lemma_injected_concat(p: XPointer, a: Seq<FakeInput>, b: Seq<FakeInput>)
    ensures
        all_injected(p, a + b) == all_injected(all_injected(p, a), b),
    decreases b.len(),
{
    if b.len() == 0 {
        assert(a + b =~= a);
    } else {
        lemma_injected_concat(p, a, b.drop_last());
        assert((a + b).drop_last() =~= a + b.drop_last());
        assert((a + b).last() == b.last());
    }
}

spec fn down_after(down: u8, before: u8, after: u8, flag: u8) -> u8 {
    if before & flag == 0 && after & flag != 0 {
        down | flag
    } else if before & flag != 0 && after & flag == 0 {
        down & !flag
    } else {
        down
    }
}

proof fn lemma_inject_diff(
    p: XPointer,
    before: u8,
    after: u8,
    flag: u8,
    button: u8,
    x: u16,
    y: u16,
)
    requires
        flag == button_bit(button),
    ensures
        all_injected(p, button_diff(before, after, flag, button, x, y)) == (XPointer {
            down: down_after(p.down, before, after, flag),
            ..p
        }),
{
    reveal_with_fuel(all_injected, 2);
    let d = button_diff(before, after, flag, button, x, y);
    if d.len() > 0 {
        assert(d.drop_last() =~= Seq::<FakeInput>::empty());
    }
}

/// A pointer event leads the X server's pointer along: one with the buttons down
/// that the event before had down is led to the event's place, with the event's
/// seven buttons down, each under its own number. The motion comes first.
pub proof fn law_pointer_inputs_lead_to_the_event(
    p: XPointer,
    mask: u8,
    x: u16,
    y: u16,
)
    ensures
        ({
            let inputs = pointer_inputs(p.down, mask, x, y);
            let q = all_injected(p, inputs);
            &&& inputs[0] == (FakeInput::Motion { x: x as i16, y: y as i16 })
            &&& q.x == x as i16 && q.y == y as i16
            &&& q.down & 0x7f == mask & 0x7f
        }),
{
    let b = p.down;
    let m = seq![FakeInput::Motion { x: x as i16, y: y as i16 }];
    let d1 = button_diff(b, mask, 0x01, 1, x, y);
    let d2 = button_diff(b, mask, 0x02, 2, x, y);
    let d3 = button_diff(b, mask, 0x04, 3, x, y);
    let d4 = button_diff(b, mask, 0x08, 4, x, y);
    let d5 = button_diff(b, mask, 0x10, 5, x, y);
    let d6 = button_diff(b, mask, 0x20, 6, x, y);
    let d7 = button_diff(b, mask, 0x40, 7, x, y);
    let p0 = all_injected(p, m);
    assert(p0 == (XPointer { x: x as i16, y: y as i16, ..p })) by {
        reveal_with_fuel(all_injected, 2);
        assert(m.drop_last() =~= Seq::<FakeInput>::empty());
    }
    lemma_injected_concat(p, m, d1);
    lemma_inject_diff(p0, b, mask, 0x01, 1, x, y);
    let p1 = all_injected(p0, d1);
    lemma_injected_concat(p, m + d1, d2);
    lemma_inject_diff(p1, b, mask, 0x02, 2, x, y);
    let p2 = all_injected(p1, d2);
    lemma_injected_concat(p, m + d1 + d2, d3);
    lemma_inject_diff(p2, b, mask, 0x04, 3, x, y);
    let p3 = all_injected(p2, d3);
    lemma_injected_concat(p, m + d1 + d2 + d3, d4);
    lemma_inject_diff(p3, b, mask, 0x08, 4, x, y);
    let p4 = all_injected(p3, d4);
    lemma_injected_concat(p, m + d1 + d2 + d3 + d4, d5);
    lemma_inject_diff(p4, b, mask, 0x10, 5, x, y);
    let p5 = all_injected(p4, d5);
    lemma_injected_concat(p, m + d1 + d2 + d3 + d4 + d5, d6);
    lemma_inject_diff(p5, b, mask, 0x20, 6, x, y);
    let p6 = all_injected(p5, d6);
    lemma_injected_concat(p, m + d1 + d2 + d3 + d4 + d5 + d6, d7);
    lemma_inject_diff(p6, b, mask, 0x40, 7, x, y);
    lemma_seven_buttons(b, mask);
}

proof fn lemma_seven_buttons(b: u8, mask: u8)
    ensures
        ({
            let r1 = down_after(b, b, mask, 0x01);
            let r2 = down_after(r1, b, mask, 0x02);
            let r3 = down_after(r2, b, mask, 0x04);
            let r4 = down_after(r3, b, mask, 0x08);
            let r5 = down_after(r4, b, mask, 0x10);
            let r6 = down_after(r5, b, mask, 0x20);
            down_after(r6, b, mask, 0x40) & 0x7f == mask & 0x7f
        }),
{
    assert(({
        let r1 = down_after(b, b, mask, 0x01);
        let r2 = down_after(r1, b, mask, 0x02);
        let r3 = down_after(r2, b, mask, 0x04);
        let r4 = down_after(r3, b, mask, 0x08);
        let r5 = down_after(r4, b, mask, 0x10);
        let r6 = down_after(r5, b, mask, 0x20);
        down_after(r6, b, mask, 0x40) & 0x7f == mask & 0x7f
    })) by (bit_vector);
}

/// The number of the left, middle or right button, given its bit.
pub open spec fn usual_number(bit: u8) -> u8 {
    if bit == 1 {
        1
    } else if bit == 2 {
        2
    } else {
        3
    }
}

/// Mouse actions reach the X server as what they are: a move to the same place,
/// the left, middle and right button under the numbers 1, 2 and 3, and a scroll
/// step up, down, right or left as a click of button 4, 5, 7 or 6.
pub proof fn law_mouse_actions_reach_the_server(action: MouseAction)
    ensures
        action matches MouseAction::Move { x, y } ==> action_inputs(action) == seq![
            FakeInput::Motion { x: x as i16, y: y as i16 },
        ],
        action matches MouseAction::ButtonDown { button, x, y } ==> (button == 1 || button == 2
            || button == 4) ==> action_inputs(action) == seq![
            FakeInput::Button {
                press: true,
                button: usual_number(button),
                x: x as i16,
                y: y as i16,
            },
        ],
        action matches MouseAction::ButtonUp { button, x, y } ==> (button == 1 || button == 2
            || button == 4) ==> action_inputs(action) == seq![
            FakeInput::Button {
                press: false,
                button: usual_number(button),
                x: x as i16,
                y: y as i16,
            },
        ],
        action matches MouseAction::Scroll { delta_x, delta_y, x, y } ==> {
            let inputs = action_inputs(action);
            let dx = if delta_x >= 0 {
                delta_x as int
            } else {
                -delta_x
            };
            let dy = if delta_y >= 0 {
                delta_y as int
            } else {
                -delta_y
            };
            &&& inputs.len() == 2 * dy + 2 * dx
            &&& forall|i: int|
                0 <= i < inputs.len() ==> (#[trigger] inputs[i]) == (FakeInput::Button {
                    press: i % 2 == 0,
                    button: if i < 2 * dy {
                        if delta_y >= 0 {
                            4
                        } else {
                            5
                        }
                    } else if delta_x >= 0 {
                        7
                    } else {
                        6
                    },
                    x: x as i16,
                    y: y as i16,
                })
        },
{
}

/// The key codes of a keyboard mapping count up from the first, one for each
/// group of symbols.
pub proof fn law_keycodes_count_up(min_keycode: u8, per_keycode: nat, group: int, i: int)
    requires
        0 < per_keycode,
        0 <= group,
        group * per_keycode <= i < (group + 1) * per_keycode,
        min_keycode + group <= 255,
    ensures
        keycode_at(min_keycode, per_keycode, i) == min_keycode + group,
{
    let n = per_keycode as int;
    assert((group + 1) * n == group * n + n) by (nonlinear_arith);
    vstd::arithmetic::div_mod::lemma_fundamental_div_mod_converse(i, n, group, i - group * n);
}

/// A key goes down when it is pressed and up when it is released, under the code
/// of the key that gives the symbol; without such a key nothing happens.
pub proof fn law_keys_are_pressed_and_released(keys: Map<u32, u8>, key_sym: u32)
    ensures
        keys.dom().contains(key_sym) ==> {
            &&& key_input(keys, key_sym, true) matches Some(FakeInput::Key { press, keycode })
            &&& press && keycode == keys[key_sym]
            &&& key_input(keys, key_sym, false) == Some(FakeInput::Key { press: false, keycode })
        },
        !keys.dom().contains(key_sym) ==> key_input(keys, key_sym, true) is None && key_input(
            keys,
            key_sym,
            false,
        ) is None,
{
}

} // verus!
