//! Pointer events: from button masks to moves, presses, releases and scrolls.

use vstd::prelude::*;

verus! {

pub const MOUSE_BTN_LEFT: u8 = 0x01;

pub const MOUSE_BTN_MIDDLE: u8 = 0x02;

pub const MOUSE_BTN_RIGHT: u8 = 0x04;

pub const MOUSE_WHEEL_UP: u8 = 0x08;

pub const MOUSE_WHEEL_DOWN: u8 = 0x10;

pub const MOUSE_WHEEL_LEFT: u8 = 0x20;

pub const MOUSE_WHEEL_RIGHT: u8 = 0x40;

/// The buttons that can be held down.
pub const MOUSE_BUTTONS: u8 = 0x07;

/// Something that the mouse did.
#[derive(Debug, Clone, Copy, PartialEq, Eq, Structural)]
pub enum MouseAction {
    Move { x: u16, y: u16 },
    ButtonDown { button: u8, x: u16, y: u16 },
    ButtonUp { button: u8, x: u16, y: u16 },
    Scroll { delta_x: i32, delta_y: i32, x: u16, y: u16 },
}

/// Where the pointer is and which buttons are down.
#[derive(Debug, Clone, Copy, PartialEq, Eq, Structural)]
pub struct MouseState {
    pub x: u16,
    pub y: u16,
    pub button_mask: u8,
}

impl Default for MouseState {
    fn default() -> (r: Self)
        ensures
            r == (MouseState { x: 0, y: 0, button_mask: 0 }),
    {
        MouseState { x: 0, y: 0, button_mask: 0 }
    }
}

/// Whether a mask sets any of the given bits.
pub open spec fn is_down(mask: u8, bits: u8) -> bool {
    mask & bits != 0
}

/// The move that an event makes, if the pointer was elsewhere.
pub open spec fn moves(s: MouseState, x: u16, y: u16) -> Seq<MouseAction> {
    if x != s.x || y != s.y {
        seq![MouseAction::Move { x, y }]
    } else {
        Seq::empty()
    }
}

/// The press or release of one button between two masks.
pub open spec fn button_change(before: u8, after: u8, button: u8, x: u16, y: u16) -> Seq<
    MouseAction,
> {
    if !is_down(before, button) && is_down(after, button) {
        seq![MouseAction::ButtonDown { button, x, y }]
    } else if is_down(before, button) && !is_down(after, button) {
        seq![MouseAction::ButtonUp { button, x, y }]
    } else {
        Seq::empty()
    }
}

/// One step in a direction for `plus`, one in the other for `minus`.
pub open spec fn steps(plus: bool, minus: bool) -> int {
    (if plus {
        1int
    } else {
        0
    }) - (if minus {
        1int
    } else {
        0
    })
}

/// The scrolling in a mask; opposite directions cancel out.
pub open spec fn scrolls(mask: u8, x: u16, y: u16) -> Seq<MouseAction> {
    let delta_x = steps(is_down(mask, MOUSE_WHEEL_RIGHT), is_down(mask, MOUSE_WHEEL_LEFT));
    let delta_y = steps(is_down(mask, MOUSE_WHEEL_UP), is_down(mask, MOUSE_WHEEL_DOWN));
    if delta_x != 0 || delta_y != 0 {
        seq![MouseAction::Scroll { delta_x: delta_x as i32, delta_y: delta_y as i32, x, y }]
    } else {
        Seq::empty()
    }
}

/// What a pointer event means: a move first, then the buttons, then scrolling.
pub open spec fn pointer_actions(s: MouseState, mask: u8, x: u16, y: u16) -> Seq<MouseAction> {
    moves(s, x, y) + button_change(s.button_mask, mask, MOUSE_BTN_LEFT, x, y) + button_change(
        s.button_mask,
        mask,
        MOUSE_BTN_MIDDLE,
        x,
        y,
    ) + button_change(s.button_mask, mask, MOUSE_BTN_RIGHT, x, y) + scrolls(mask, x, y)
}

/// The state after a pointer event.
pub open spec fn pointer_state(mask: u8, x: u16, y: u16) -> MouseState {
    MouseState { x, y, button_mask: mask & MOUSE_BUTTONS }
}

/// Follows the pointer.
#[derive(Debug)]
pub struct MouseRouter {
    pub state: MouseState,
}

fn push_button_change(
    actions: &mut Vec<MouseAction>,
    before: u8,
    after: u8,
    button: u8,
    x: u16,
    y: u16,
)
    ensures
        final(actions)@ == old(actions)@ + button_change(before, after, button, x, y),
{
    let was_down = before & button != 0;
    let is_down = after & button != 0;
    if !was_down && is_down {
        actions.push(MouseAction::ButtonDown { button, x, y });
    } else if was_down && !is_down {
        actions.push(MouseAction::ButtonUp { button, x, y });
    }
    assert(actions@ =~= old(actions)@ + button_change(before, after, button, x, y));
}

impl MouseRouter {
    /// The pointer in the corner, no button down.
    pub fn new() -> (r: Self)
        ensures
            r.state == (MouseState { x: 0, y: 0, button_mask: 0 }),
    {
        MouseRouter { state: MouseState { x: 0, y: 0, button_mask: 0 } }
    }

    pub fn get_state(&self) -> (r: MouseState)
        ensures
            r == self.state,
    {
        self.state
    }

    pub fn get_position(&self) -> (r: (u16, u16))
        ensures
            r == (self.state.x, self.state.y),
    {
        (self.state.x, self.state.y)
    }

    pub fn get_button_mask(&self) -> (r: u8)
        ensures
            r == self.state.button_mask,
    {
        self.state.button_mask
    }

    /// Takes a pointer event in and says what it means.
    pub fn handle_pointer_event(&mut self, button_mask: u8, x: u16, y: u16) -> (actions: Vec<
        MouseAction,
    >)
        ensures
            actions@ == pointer_actions(old(self).state, button_mask, x, y),
            final(self).state == pointer_state(button_mask, x, y),
    {
        let before = self.state;
        self.state = MouseState { x, y, button_mask: button_mask & MOUSE_BUTTONS };
        let mut actions: Vec<MouseAction> = Vec::new();
        if x != before.x || y != before.y {
            actions.push(MouseAction::Move { x, y });
        }
        assert(actions@ =~= moves(before, x, y));
        push_button_change(&mut actions, before.button_mask, button_mask, MOUSE_BTN_LEFT, x, y);
        push_button_change(&mut actions, before.button_mask, button_mask, MOUSE_BTN_MIDDLE, x, y);
        push_button_change(&mut actions, before.button_mask, button_mask, MOUSE_BTN_RIGHT, x, y);
        let mut delta_x: i32 = 0;
        let mut delta_y: i32 = 0;
        if button_mask & MOUSE_WHEEL_UP != 0 {
            delta_y = delta_y + 1;
        }
        if button_mask & MOUSE_WHEEL_DOWN != 0 {
            delta_y = delta_y - 1;
        }
        if button_mask & MOUSE_WHEEL_LEFT != 0 {
            delta_x = delta_x - 1;
        }
        if button_mask & MOUSE_WHEEL_RIGHT != 0 {
            delta_x = delta_x + 1;
        }
        if delta_x != 0 || delta_y != 0 {
            actions.push(MouseAction::Scroll { delta_x, delta_y, x, y });
        }
        assert(actions@ =~= pointer_actions(before, button_mask, x, y));
        actions
    }
}

impl Default for MouseRouter {
    fn default() -> (r: Self)
        ensures
            r.state == (MouseState { x: 0, y: 0, button_mask: 0 }),
    {
        MouseRouter::new()
    }
}

proof fn lemma_buttons_kept(mask: u8)
    ensures
        is_down(mask & MOUSE_BUTTONS, MOUSE_BTN_LEFT) == is_down(mask, MOUSE_BTN_LEFT),
        is_down(mask & MOUSE_BUTTONS, MOUSE_BTN_MIDDLE) == is_down(mask, MOUSE_BTN_MIDDLE),
        is_down(mask & MOUSE_BUTTONS, MOUSE_BTN_RIGHT) == is_down(mask, MOUSE_BTN_RIGHT),
{
    assert((mask & 0x07u8) & 0x01u8 == mask & 0x01u8) by (bit_vector);
    assert((mask & 0x07u8) & 0x02u8 == mask & 0x02u8) by (bit_vector);
    assert((mask & 0x07u8) & 0x04u8 == mask & 0x04u8) by (bit_vector);
}

/// An event that is repeated moves nothing and presses nothing; it only
/// scrolls again.
pub proof fn law_repeated_event_only_scrolls(mask: u8, x: u16, y: u16)
    ensures
        pointer_actions(pointer_state(mask, x, y), mask, x, y) == scrolls(mask, x, y),
{
    lemma_buttons_kept(mask);
    assert(pointer_actions(pointer_state(mask, x, y), mask, x, y) =~= scrolls(mask, x, y));
}

/// Presses and releases alternate: after an event, a button is remembered as
/// down exactly where the event had it down, so that it is next released, and
/// pressed only when it was up.
pub proof fn law_presses_and_releases_alternate(
    mask: u8,
    next: u8,
    button: u8,
    x: u16,
    y: u16,
)
    requires
        button == MOUSE_BTN_LEFT || button == MOUSE_BTN_MIDDLE || button == MOUSE_BTN_RIGHT,
    ensures
        button_change(pointer_state(mask, x, y).button_mask, next, button, x, y) == if is_down(
            mask,
            button,
        ) && !is_down(next, button) {
            seq![MouseAction::ButtonUp { button, x, y }]
        } else if !is_down(mask, button) && is_down(next, button) {
            seq![MouseAction::ButtonDown { button, x, y }]
        } else {
            Seq::empty()
        },
{
    lemma_buttons_kept(mask);
}

/// A pointer event of a client: the buttons that are down, and where.
pub struct PointerEvent {
    pub mask: u8,
    pub x: u16,
    pub y: u16,
}

/// What one action does to a pointer: a move puts it elsewhere, a press adds a
/// button, a release takes it away.
pub open spec fn acted(d: MouseState, action: MouseAction) -> MouseState {
    match action {
        MouseAction::Move { x, y } => MouseState { x, y, ..d },
        MouseAction::ButtonDown { button, .. } => MouseState {
            button_mask: d.button_mask | button,
            ..d
        },
        MouseAction::ButtonUp { button, .. } => MouseState {
            button_mask: d.button_mask & !button,
            ..d
        },
        MouseAction::Scroll { .. } => d,
    }
}

/// A pointer after some actions, one after the other.
pub open spec fn replayed(d: MouseState, actions: Seq<MouseAction>) -> MouseState
    decreases actions.len(),
{
    if actions.len() == 0 {
        d
    } else {
        acted(replayed(d, actions.drop_last()), actions.last())
    }
}

proof fn lemma_replayed_concat(d: MouseState, a: Seq<MouseAction>, b: Seq<MouseAction>)
    ensures
        replayed(d, a + b) == replayed(replayed(d, a), b),
    decreases b.len(),
{
    if b.len() == 0 {
        assert(a + b =~= a);
    } else {
        lemma_replayed_concat(d, a, b.drop_last());
        assert((a + b).drop_last() =~= a + b.drop_last());
        assert((a + b).last() == b.last());
    }
}

/// What a change of one button does to the buttons that are down.
spec fn with_change(down: u8, before: u8, after: u8, button: u8) -> u8 {
    if before & button == 0 && after & button != 0 {
        down | button
    } else if before & button != 0 && after & button == 0 {
        down & !button
    } else {
        down
    }
}

proof fn lemma_replay_button(d: MouseState, before: u8, after: u8, button: u8, x: u16, y: u16)
    ensures
        replayed(d, button_change(before, after, button, x, y)) == (MouseState {
            button_mask: with_change(d.button_mask, before, after, button),
            ..d
        }),
{
    reveal_with_fuel(replayed, 2);
    let c = button_change(before, after, button, x, y);
    if c.len() > 0 {
        assert(c.drop_last() =~= Seq::<MouseAction>::empty());
    }
}

proof fn lemma_all_changes(before: u8, after: u8)
    requires
        before <= 7,
    ensures
        with_change(
            with_change(with_change(before, before, after, 1), before, after, 2),
            before,
            after,
            4,
        ) == after & 7,
{
    let a = with_change(before, before, after, 1);
    let b = with_change(a, before, after, 2);
    let c = with_change(b, before, after, 4);
    assert(c == after & 7) by (bit_vector)
        requires
            before <= 7,
            a == (if before & 1 == 0 && after & 1 != 0 {
                before | 1
            } else if before & 1 != 0 && after & 1 == 0 {
                before & !1
            } else {
                before
            }),
            b == (if before & 2 == 0 && after & 2 != 0 {
                a | 2
            } else if before & 2 != 0 && after & 2 == 0 {
                a & !2
            } else {
                a
            }),
            c == (if before & 4 == 0 && after & 4 != 0 {
                b | 4
            } else if before & 4 != 0 && after & 4 == 0 {
                b & !4
            } else {
                b
            }),
    ;
}

/// The actions of an event keep up with the client: a pointer that stood where
/// the router had it, with the buttons down that the router had down, is led by
/// them to the place of the event, in both coordinates, with exactly the three
/// buttons down that the event has down.
pub proof fn law_actions_lead_to_the_event(s: MouseState, mask: u8, x: u16, y: u16)
    requires
        s.button_mask <= 7,
    ensures
        replayed(s, pointer_actions(s, mask, x, y)) == (MouseState {
            x,
            y,
            button_mask: mask & 7,
        }),
        pointer_state(mask, x, y) == (MouseState { x, y, button_mask: mask & 7 }),
{
    let m = moves(s, x, y);
    let l = button_change(s.button_mask, mask, MOUSE_BTN_LEFT, x, y);
    let c = button_change(s.button_mask, mask, MOUSE_BTN_MIDDLE, x, y);
    let r = button_change(s.button_mask, mask, MOUSE_BTN_RIGHT, x, y);
    let w = scrolls(mask, x, y);
    let d1 = replayed(s, m);
    assert(d1 == (MouseState { x, y, ..s })) by {
        reveal_with_fuel(replayed, 2);
        if m.len() > 0 {
            assert(m.drop_last() =~= Seq::<MouseAction>::empty());
        }
    }
    lemma_replayed_concat(s, m, l);
    lemma_replay_button(d1, s.button_mask, mask, MOUSE_BTN_LEFT, x, y);
    let d2 = replayed(d1, l);
    lemma_replayed_concat(s, m + l, c);
    lemma_replay_button(d2, s.button_mask, mask, MOUSE_BTN_MIDDLE, x, y);
    let d3 = replayed(d2, c);
    lemma_replayed_concat(s, m + l + c, r);
    lemma_replay_button(d3, s.button_mask, mask, MOUSE_BTN_RIGHT, x, y);
    let d4 = replayed(d3, r);
    lemma_replayed_concat(s, m + l + c + r, w);
    assert(replayed(d4, w) == d4) by {
        reveal_with_fuel(replayed, 2);
        if w.len() > 0 {
            assert(w.drop_last() =~= Seq::<MouseAction>::empty());
        }
    }
    lemma_all_changes(s.button_mask, mask);
}

/// The state of the router after some events.
pub open spec fn state_after(s: MouseState, events: Seq<PointerEvent>) -> MouseState
    decreases events.len(),
{
    if events.len() == 0 {
        s
    } else {
        pointer_state(events.last().mask, events.last().x, events.last().y)
    }
}

/// All actions given out for some events.
pub open spec fn all_actions(s: MouseState, events: Seq<PointerEvent>) -> Seq<MouseAction>
    decreases events.len(),
{
    if events.len() == 0 {
        Seq::empty()
    } else {
        all_actions(s, events.drop_last()) + pointer_actions(
            state_after(s, events.drop_last()),
            events.last().mask,
            events.last().x,
            events.last().y,
        )
    }
}

/// The actions keep up with the client over any sequence of events: all of them
/// together lead a pointer in the corner, with no button down, to the place and
/// the buttons of the last event.
pub proof fn law_actions_keep_up(events: Seq<PointerEvent>)
    requires
        events.len() > 0,
    ensures
        ({
            let start = MouseState { x: 0, y: 0, button_mask: 0 };
            let end = events.last();
            replayed(start, all_actions(start, events)) == (MouseState {
                x: end.x,
                y: end.y,
                button_mask: end.mask & 7,
            })
        }),
    decreases events.len(),
{
    let start = MouseState { x: 0, y: 0, button_mask: 0 };
    let rest = events.drop_last();
    let before = state_after(start, rest);
    let end = events.last();
    if rest.len() > 0 {
        law_actions_keep_up(rest);
        let m = rest.last().mask;
        assert(m & 7 <= 7) by (bit_vector);
    }
    lemma_replayed_concat(
        start,
        all_actions(start, rest),
        pointer_actions(before, end.mask, end.x, end.y),
    );
    law_actions_lead_to_the_event(before, end.mask, end.x, end.y);
}

/// Where an action takes place.
pub open spec fn place(action: MouseAction) -> (u16, u16) {
    match action {
        MouseAction::Move { x, y } => (x, y),
        MouseAction::ButtonDown { x, y, .. } => (x, y),
        MouseAction::ButtonUp { x, y, .. } => (x, y),
        MouseAction::Scroll { x, y, .. } => (x, y),
    }
}

/// Every action of an event takes place where the event does. A pointer that
/// stood elsewhere is moved there first; one that stood there is not moved. A
/// button is pressed only if it was up and released only if it was down.
pub proof fn law_actions_take_place_at_the_event(
    s: MouseState,
    mask: u8,
    x: u16,
    y: u16,
    i: int,
)
    requires
        0 <= i < pointer_actions(s, mask, x, y).len(),
    ensures
        ({
            let actions = pointer_actions(s, mask, x, y);
            &&& place(actions[i]) == (x, y)
            &&& (actions[i] is Move) == (i == 0 && (s.x != x || s.y != y))
            &&& actions[i] matches MouseAction::ButtonDown { button, .. } ==> s.button_mask & button
                == 0 && mask & button != 0
            &&& actions[i] matches MouseAction::ButtonUp { button, .. } ==> s.button_mask & button
                != 0 && mask & button == 0
        }),
{
}

/// The wheel: bits 3 and 4 scroll up and down, bits 5 and 6 left and right, by
/// one step each; a step up or right counts as plus. Where they cancel out there
/// is no scrolling. Scrolling comes last.
pub proof fn law_wheel_steps(s: MouseState, mask: u8, x: u16, y: u16)
    ensures
        ({
            let up = if mask & 8 != 0 { 1int } else { 0 };
            let down = if mask & 16 != 0 { 1int } else { 0 };
            let left = if mask & 32 != 0 { 1int } else { 0 };
            let right = if mask & 64 != 0 { 1int } else { 0 };
            let actions = pointer_actions(s, mask, x, y);
            let scrolls_last = actions.len() > 0 && actions.last() is Scroll;
            &&& scrolls_last == (up != down || left != right)
            &&& scrolls_last ==> actions.last() == (MouseAction::Scroll {
                delta_x: (right - left) as i32,
                delta_y: (up - down) as i32,
                x,
                y,
            })
            &&& forall|i: int| 0 <= i < actions.len() - 1 ==> !((#[trigger] actions[i]) is Scroll)
        }),
{
}

} // verus!
