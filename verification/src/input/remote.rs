//! Input of remote clients.

use crate::input::codes::{
    rdp_scancode_to_xkb, xkb_of_scancode, BTN_LEFT, BTN_MIDDLE, BTN_RIGHT,
};
use vstd::prelude::*;

verus! {

/// Keys that a client holds down, in the order in which they were pressed.
#[derive(Debug)]
pub struct PressedKeys {
    keys: Vec<u32>,
}

impl PressedKeys {
    pub closed spec fn view(&self) -> Seq<u32> {
        self.keys@
    }

    /// No key is held twice.
    pub open spec fn wf(&self) -> bool {
        self@.no_duplicates()
    }

    pub fn new() -> (r: Self)
        ensures
            r.wf(),
            r@ == Seq::<u32>::empty(),
    {
        PressedKeys { keys: Vec::new() }
    }

    fn place(&self, keycode: u32) -> (r: Option<usize>)
        ensures
            match r {
                Some(i) => i < self@.len() && self@[i as int] == keycode,
                None => !self@.contains(keycode),
            },
    {
        let mut i: usize = 0;
        while i < self.keys.len()
            invariant
                i <= self@.len(),
                self@ == self.keys@,
                forall|j: int| 0 <= j < i ==> self@[j] != keycode,
            decreases self@.len() - i,
        {
            if self.keys[i] == keycode {
                return Some(i);
            }
            i = i + 1;
        }
        None
    }

    /// A key event of the client. Repeated presses do not count: the compositor repeats keys
    /// itself. Returns whether the event counts.
    pub fn key(&mut self, keycode: u32, pressed: bool) -> (counts: bool)
        requires
            old(self).wf(),
        ensures
            final(self).wf(),
            counts == key_counts(old(self)@, keycode, pressed),
            key_noted(old(self)@, final(self)@, keycode, pressed),
    {
        match self.place(keycode) {
            Some(i) => {
                if pressed {
                    false
                } else {
                    self.keys.remove(i);
                    assert(old(self)@[i as int] == keycode);
                    true
                }
            },
            None => {
                if pressed {
                    self.keys.push(keycode);
                }
                true
            },
        }
    }

    /// Forgets every key and returns those that were held, so that none stays stuck.
    pub fn release_all(&mut self) -> (released: Vec<u32>)
        ensures
            final(self).wf(),
            final(self)@ == Seq::<u32>::empty(),
            released@ == old(self)@,
    {
        let mut released: Vec<u32> = Vec::new();
        let mut i: usize = 0;
        while i < self.keys.len()
            invariant
                i <= self.keys@.len(),
                released@ =~= self.keys@.take(i as int),
            decreases self.keys@.len() - i,
        {
            released.push(self.keys[i]);
            i = i + 1;
        }
        assert(self.keys@.take(i as int) =~= self.keys@);
        self.keys = Vec::new();
        released
    }
}

/// A key event counts, unless it is a repeated press.
pub open spec fn key_counts(keys: Seq<u32>, keycode: u32, pressed: bool) -> bool {
    !(pressed && keys.contains(keycode))
}

/// The keys that are held after a key event: a pressed key comes last, a released one goes.
pub open spec fn key_noted(before: Seq<u32>, after: Seq<u32>, keycode: u32, pressed: bool) -> bool {
    if pressed && !before.contains(keycode) {
        after == before.push(keycode)
    } else if !pressed && before.contains(keycode) {
        exists|i: int|
            0 <= i < before.len() && before[i] == keycode && after == #[trigger] before.remove(i)
    } else {
        after == before
    }
}

/// After a key is released it is not held, and the others still are.
pub proof fn lemma_released(keys: Seq<u32>, i: int, other: u32)
    requires
        keys.no_duplicates(),
        0 <= i < keys.len(),
    ensures
        !keys.remove(i).contains(keys[i]),
        other != keys[i] ==> keys.remove(i).contains(other) == keys.contains(other),
{
    let left = keys.remove(i);
    if left.contains(keys[i]) {
        let j = choose|j: int| 0 <= j < left.len() && left[j] == keys[i];
        if j < i {
            assert(keys[j] == keys[i]);
        } else {
            assert(keys[j + 1] == keys[i]);
        }
    }
    if other != keys[i] && keys.contains(other) {
        let j = choose|j: int| 0 <= j < keys.len() && keys[j] == other;
        if j < i {
            assert(left[j] == other);
        } else {
            assert(left[j - 1] == other);
        }
    }
    if left.contains(other) {
        let j = choose|j: int| 0 <= j < left.len() && left[j] == other;
        if j < i {
            assert(keys[j] == other);
        } else {
            assert(keys[j + 1] == other);
        }
    }
}

/// A button of the pointer went down or up.
#[derive(Debug, Clone, Copy, PartialEq, Eq, Structural)]
pub struct ButtonChange {
    pub button: u32,
    pub pressed: bool,
}

/// Bit `i` of a button mask is set.
pub open spec fn held(mask: u8, i: int) -> bool {
    if i == 0 {
        mask % 2 == 1
    } else if i == 1 {
        mask / 2 % 2 == 1
    } else {
        mask / 4 % 2 == 1
    }
}

/// What changed of one button.
pub open spec fn change_of(before: u8, after: u8, i: int, button: u32) -> Seq<ButtonChange> {
    if held(before, i) != held(after, i) {
        seq![ButtonChange { button, pressed: held(after, i) }]
    } else {
        Seq::empty()
    }
}

/// What changed between two button masks: bit 0 is the left, bit 1 the middle, and bit 2 the right
/// button; the other bits do not count.
pub open spec fn changes(before: u8, after: u8) -> Seq<ButtonChange> {
    change_of(before, after, 0, BTN_LEFT) + change_of(before, after, 1, BTN_MIDDLE) + change_of(
        before,
        after,
        2,
        BTN_RIGHT,
    )
}

/// What changed between two button masks of a VNC client.
pub fn button_changes(before: u8, after: u8) -> (r: Vec<ButtonChange>)
    ensures
        r@ == changes(before, after),
{
    let mut r: Vec<ButtonChange> = Vec::new();
    if (before % 2 == 1) != (after % 2 == 1) {
        r.push(ButtonChange { button: BTN_LEFT, pressed: after % 2 == 1 });
    }
    assert(r@ =~= change_of(before, after, 0, BTN_LEFT));
    if (before / 2 % 2 == 1) != (after / 2 % 2 == 1) {
        r.push(ButtonChange { button: BTN_MIDDLE, pressed: after / 2 % 2 == 1 });
    }
    assert(r@ =~= change_of(before, after, 0, BTN_LEFT) + change_of(before, after, 1, BTN_MIDDLE));
    if (before / 4 % 2 == 1) != (after / 4 % 2 == 1) {
        r.push(ButtonChange { button: BTN_RIGHT, pressed: after / 4 % 2 == 1 });
    }
    assert(r@ =~= changes(before, after));
    r
}

/// A keyboard event of an RDP client.
#[derive(Debug, Clone, Copy, PartialEq, Eq, Structural)]
pub enum RdpKeyboard {
    Pressed { code: u8, extended: bool },
    Released { code: u8, extended: bool },
    /// Unicode input or a synchronisation of the lock keys.
    Other,
}

/// A pointer event of an RDP client.
#[derive(Debug, Clone, Copy, PartialEq, Eq, Structural)]
pub enum RdpMouse {
    Move { x: u16, y: u16 },
    LeftPressed,
    LeftReleased,
    RightPressed,
    RightReleased,
    MiddlePressed,
    MiddleReleased,
    VerticalScroll { value: i16 },
    /// Further buttons and relative motion.
    Other,
}

/// Input of an RDP client as the compositor takes it.
#[derive(Debug, Clone, Copy, PartialEq, Eq, Structural)]
pub enum RdpInputEvent {
    MouseMove { x: u16, y: u16 },
    MouseButton { button: u32, pressed: bool },
    MouseScroll { value: i16 },
    /// Already converted to XKB keycode (evdev + 8)
    Key { keycode: u32, pressed: bool },
    ClientConnected,
    ClientDisconnected,
    /// The only client went, and the compositor is to end.
    Quit,
}

/// The compositor's view of a scan code event.
pub open spec fn key_event(code: u8, extended: bool, pressed: bool) -> Option<RdpInputEvent> {
    match xkb_of_scancode(code, extended) {
        Some(keycode) => Some(RdpInputEvent::Key { keycode, pressed }),
        None => None,
    }
}

/// What the compositor hears of a keyboard event; nothing of keys without a keycode.
pub fn keyboard(event: RdpKeyboard) -> (r: Option<RdpInputEvent>)
    ensures
        r == (match event {
            RdpKeyboard::Pressed { code, extended } => key_event(code, extended, true),
            RdpKeyboard::Released { code, extended } => key_event(code, extended, false),
            RdpKeyboard::Other => None,
        }),
{
    match event {
        RdpKeyboard::Pressed { code, extended } => match rdp_scancode_to_xkb(code, extended) {
            Some(keycode) => Some(RdpInputEvent::Key { keycode, pressed: true }),
            None => None,
        },
        RdpKeyboard::Released { code, extended } => match rdp_scancode_to_xkb(code, extended) {
            Some(keycode) => Some(RdpInputEvent::Key { keycode, pressed: false }),
            None => None,
        },
        RdpKeyboard::Other => None,
    }
}

/// The compositor's view of a pointer event.
pub open spec fn pointer_event(event: RdpMouse) -> Option<RdpInputEvent> {
    match event {
        RdpMouse::Move { x, y } => Some(RdpInputEvent::MouseMove { x, y }),
        RdpMouse::LeftPressed => Some(
            RdpInputEvent::MouseButton { button: BTN_LEFT, pressed: true },
        ),
        RdpMouse::LeftReleased => Some(
            RdpInputEvent::MouseButton { button: BTN_LEFT, pressed: false },
        ),
        RdpMouse::RightPressed => Some(
            RdpInputEvent::MouseButton { button: BTN_RIGHT, pressed: true },
        ),
        RdpMouse::RightReleased => Some(
            RdpInputEvent::MouseButton { button: BTN_RIGHT, pressed: false },
        ),
        RdpMouse::MiddlePressed => Some(
            RdpInputEvent::MouseButton { button: BTN_MIDDLE, pressed: true },
        ),
        RdpMouse::MiddleReleased => Some(
            RdpInputEvent::MouseButton { button: BTN_MIDDLE, pressed: false },
        ),
        RdpMouse::VerticalScroll { value } => Some(RdpInputEvent::MouseScroll { value }),
        RdpMouse::Other => None,
    }
}

/// What the compositor hears of a pointer event.
pub fn mouse(event: RdpMouse) -> (r: Option<RdpInputEvent>)
    ensures
        r == pointer_event(event),
{
    match event {
        RdpMouse::Move { x, y } => Some(RdpInputEvent::MouseMove { x, y }),
        RdpMouse::LeftPressed => Some(
            RdpInputEvent::MouseButton { button: BTN_LEFT, pressed: true },
        ),
        RdpMouse::LeftReleased => Some(
            RdpInputEvent::MouseButton { button: BTN_LEFT, pressed: false },
        ),
        RdpMouse::RightPressed => Some(
            RdpInputEvent::MouseButton { button: BTN_RIGHT, pressed: true },
        ),
        RdpMouse::RightReleased => Some(
            RdpInputEvent::MouseButton { button: BTN_RIGHT, pressed: false },
        ),
        RdpMouse::MiddlePressed => Some(
            RdpInputEvent::MouseButton { button: BTN_MIDDLE, pressed: true },
        ),
        RdpMouse::MiddleReleased => Some(
            RdpInputEvent::MouseButton { button: BTN_MIDDLE, pressed: false },
        ),
        RdpMouse::VerticalScroll { value } => Some(RdpInputEvent::MouseScroll { value }),
        RdpMouse::Other => None,
    }
}

} // verus!
