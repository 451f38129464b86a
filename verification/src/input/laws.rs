//! Which key, button and binding is which.

use crate::compositor::state::PluginKeybinding;
use crate::input::codes::{
    next_resolution, parse_modifiers, rdp_scancode_to_xkb, xkeysym_to_xkb_keycode, Modifiers,
};
use crate::input::keys::{
    binding_matches, filter_key, is_first_binding, keysym_to_workspace, KeyAction, KeyFilter, KeySource,
};
use crate::input::remote::{
    button_changes, keyboard, lemma_released, mouse, ButtonChange, PressedKeys, RdpInputEvent,
    RdpKeyboard, RdpMouse,
};
use vstd::prelude::*;

verus! {

/// The keys of a row of the keyboard, from left to right, as they are and with Shift.
pub open spec fn digit_row() -> Seq<char> {
    seq!['1', '2', '3', '4', '5', '6', '7', '8', '9', '0', '-', '=']
}

pub open spec fn shifted_digit_row() -> Seq<char> {
    seq!['!', '@', '#', '$', '%', '^', '&', '*', '(', ')', '_', '+']
}

pub open spec fn upper_row() -> Seq<char> {
    seq!['q', 'w', 'e', 'r', 't', 'y', 'u', 'i', 'o', 'p', '[', ']']
}

pub open spec fn shifted_upper_row() -> Seq<char> {
    seq!['Q', 'W', 'E', 'R', 'T', 'Y', 'U', 'I', 'O', 'P', '{', '}']
}

pub open spec fn home_row() -> Seq<char> {
    seq!['a', 's', 'd', 'f', 'g', 'h', 'j', 'k', 'l', ';', '\'', '`']
}

pub open spec fn shifted_home_row() -> Seq<char> {
    seq!['A', 'S', 'D', 'F', 'G', 'H', 'J', 'K', 'L', ':', '"', '~']
}

pub open spec fn lower_row() -> Seq<char> {
    seq!['z', 'x', 'c', 'v', 'b', 'n', 'm', ',', '.', '/']
}

pub open spec fn shifted_lower_row() -> Seq<char> {
    seq!['Z', 'X', 'C', 'V', 'B', 'N', 'M', '<', '>', '?']
}

/// The keys of a row have one code after the other, whether Shift is held or not. The code for the
/// window system is eight more than that of the kernel, which counts the digits from 2 on, the row below
/// from 16, the next from 30 and the last from 44.
pub proof fn lemma_rows_are_counted(keysym: u32, r: Option<u32>, k: int)
    requires
        call_ensures(xkeysym_to_xkb_keycode, (keysym,), r),
        0 <= k < 12,
    ensures
        keysym == digit_row()[k] as u32 || keysym == shifted_digit_row()[k] as u32 ==> r == Some(
            (10 + k) as u32,
        ),
        keysym == upper_row()[k] as u32 || keysym == shifted_upper_row()[k] as u32 ==> r == Some(
            (24 + k) as u32,
        ),
        keysym == home_row()[k] as u32 || keysym == shifted_home_row()[k] as u32 ==> r == Some(
            (38 + k) as u32,
        ),
        k < 10 && (keysym == lower_row()[k] as u32 || keysym == shifted_lower_row()[k] as u32) ==> r
            == Some((52 + k) as u32),
{
    if k == 0 {
    } else if k == 1 {
    } else if k == 2 {
    } else if k == 3 {
    } else if k == 4 {
    } else if k == 5 {
    } else if k == 6 {
    } else if k == 7 {
    } else if k == 8 {
    } else if k == 9 {
    } else if k == 10 {
    } else {
        assert(k == 11);
    }
}

/// The function keys have one code after the other, the last two after a break.
pub proof fn lemma_function_keys_are_counted(keysym: u32, r: Option<u32>)
    requires
        call_ensures(xkeysym_to_xkb_keycode, (keysym,), r),
    ensures
        0xffbe <= keysym <= 0xffc7 ==> r == Some((keysym - 0xffbe + 67) as u32),
        0xffc8 <= keysym <= 0xffc9 ==> r == Some((keysym - 0xffc8 + 95) as u32),
{
}

/// The scan code of an RDP client and the symbol of a VNC client for the same key.
pub open spec fn same_key(code: u8, extended: bool, keysym: u32) -> bool {
    // Escape
    ||| !extended && code == 1 && keysym == 0xff1b
    // Backspace
    ||| !extended && code == 14 && keysym == 0xff08
    // Tab
    ||| !extended && code == 15 && keysym == 0xff09
    // Return
    ||| !extended && code == 28 && keysym == 0xff0d
    // left Control
    ||| !extended && code == 29 && keysym == 0xffe3
    // left Shift
    ||| !extended && code == 42 && keysym == 0xffe1
    // backslash and |
    ||| !extended && code == 43 && (keysym == 0x5c || keysym == 0x7c)
    // right Shift
    ||| !extended && code == 54 && keysym == 0xffe2
    // left Alt
    ||| !extended && code == 56 && keysym == 0xffe9
    // space
    ||| !extended && code == 57 && keysym == 0x20
    // Caps Lock
    ||| !extended && code == 58 && keysym == 0xffe5
    // right Control
    ||| extended && code == 0x1d && keysym == 0xffe4
    // right Alt
    ||| extended && code == 0x38 && keysym == 0xffea
    // Home
    ||| extended && code == 0x47 && keysym == 0xff50
    // Up
    ||| extended && code == 0x48 && keysym == 0xff52
    // Page Up
    ||| extended && code == 0x49 && keysym == 0xff55
    // Left
    ||| extended && code == 0x4b && keysym == 0xff51
    // Right
    ||| extended && code == 0x4d && keysym == 0xff53
    // End
    ||| extended && code == 0x4f && keysym == 0xff57
    // Down
    ||| extended && code == 0x50 && keysym == 0xff54
    // Page Down
    ||| extended && code == 0x51 && keysym == 0xff56
    // Insert
    ||| extended && code == 0x52 && keysym == 0xff63
    // Delete
    ||| extended && code == 0x53 && keysym == 0xffff
    // left and right Super
    ||| extended && code == 0x5b && keysym == 0xffeb
    ||| extended && code == 0x5c && keysym == 0xffec
}

/// A key of an RDP client and the same key of a VNC client are the same for the compositor. A scan code
/// without a prefix is the kernel's own, and the code for the window system is eight more. With the
/// prefix, the keys of the block above the arrows and the arrows follow each other.
pub proof fn lemma_clients_press_the_same_keys(
    code: u8,
    extended: bool,
    keysym: u32,
    r: Option<u32>,
    q: Option<u32>,
)
    requires
        call_ensures(rdp_scancode_to_xkb, (code, extended), r),
        call_ensures(xkeysym_to_xkb_keycode, (keysym,), q),
    ensures
        !extended ==> r == Some((code + 8) as u32),
        same_key(code, extended, keysym) ==> r is Some && q == r,
        extended && 0x47 <= code <= 0x49 ==> r == Some((code - 0x47 + 110) as u32),
        extended && 0x4f <= code <= 0x53 ==> r == Some((code - 0x4f + 115) as u32),
        extended && code == 0x4b ==> r == Some(113u32),
        extended && code == 0x4d ==> r == Some(114u32),
{
}

/// Of a remote keyboard, a press is a press and a release a release, of the same key.
pub proof fn lemma_key_events_are_taken(
    code: u8,
    extended: bool,
    r: Option<u32>,
    down: Option<RdpInputEvent>,
    up: Option<RdpInputEvent>,
)
    requires
        call_ensures(rdp_scancode_to_xkb, (code, extended), r),
        call_ensures(keyboard, (RdpKeyboard::Pressed { code, extended },), down),
        call_ensures(keyboard, (RdpKeyboard::Released { code, extended },), up),
    ensures
        match r {
            Some(keycode) => {
                &&& down == Some(RdpInputEvent::Key { keycode, pressed: true })
                &&& up == Some(RdpInputEvent::Key { keycode, pressed: false })
            },
            None => down is None && up is None,
        },
{
}

/// Of a remote pointer, the buttons are the kernel's left, right and middle one, and a press is a press.
pub proof fn lemma_pointer_events_are_taken(event: RdpMouse, r: Option<RdpInputEvent>)
    requires
        call_ensures(mouse, (event,), r),
    ensures
        event is LeftPressed || event is LeftReleased ==> r == Some(
            RdpInputEvent::MouseButton { button: 0x110, pressed: event is LeftPressed },
        ),
        event is RightPressed || event is RightReleased ==> r == Some(
            RdpInputEvent::MouseButton { button: 0x111, pressed: event is RightPressed },
        ),
        event is MiddlePressed || event is MiddleReleased ==> r == Some(
            RdpInputEvent::MouseButton { button: 0x112, pressed: event is MiddlePressed },
        ),
        event matches RdpMouse::Move { x, y } ==> r == Some(RdpInputEvent::MouseMove { x, y }),
        event matches RdpMouse::VerticalScroll { value } ==> r == Some(
            RdpInputEvent::MouseScroll { value },
        ),
        event is Other ==> r is None,
{
}

/// A key is held from its first press to its release; the events between do not count, and the other
/// keys are as they were.
pub proof fn lemma_keys_are_held(keys: &mut PressedKeys, keycode: u32, pressed: bool, counts: bool)
    requires
        old(keys).wf(),
        call_ensures(PressedKeys::key, (keys, keycode, pressed), counts),
    ensures
        final(keys)@.contains(keycode) <==> pressed,
        forall|k: u32|
            k != keycode ==> (#[trigger] final(keys)@.contains(k) <==> old(keys)@.contains(k)),
        counts <==> !(pressed && old(keys)@.contains(keycode)),
{
    let before = old(keys)@;
    let after = final(keys)@;
    if pressed && !before.contains(keycode) {
        assert(after == before.push(keycode));
        assert(after[before.len() as int] == keycode);
        assert forall|k: u32| k != keycode implies (#[trigger] after.contains(k) <==> before.contains(
            k,
        )) by {
            if before.contains(k) {
                let j = choose|j: int| 0 <= j < before.len() && before[j] == k;
                assert(after[j] == k);
            }
            if after.contains(k) {
                let j = choose|j: int| 0 <= j < after.len() && after[j] == k;
                assert(before[j] == k);
            }
        }
    } else if !pressed && before.contains(keycode) {
        let i = choose|i: int|
            0 <= i < before.len() && before[i] == keycode && after == #[trigger] before.remove(i);
        lemma_released(before, i, keycode);
        assert forall|k: u32| k != keycode implies (#[trigger] after.contains(k) <==> before.contains(
            k,
        )) by {
            lemma_released(before, i, k);
        }
    }
}

/// Whether a button's bit tells that it is held.
pub open spec fn bit_of(mask: u8, button: u32) -> int {
    if button == 0x110 {
        mask as int % 2
    } else if button == 0x112 {
        mask as int / 2 % 2
    } else {
        mask as int / 4 % 2
    }
}

/// The changes between two masks are those of the left button, bit 0, of the middle one, bit 1, and of
/// the right one, bit 2.
pub proof fn lemma_buttons_change(before: u8, after: u8, r: Vec<ButtonChange>, button: u32)
    requires
        call_ensures(button_changes, (before, after), r),
        button == 0x110 || button == 0x111 || button == 0x112,
    ensures
        bit_of(before, button) != bit_of(after, button) <==> exists|k: int|
            0 <= k < r@.len() && (#[trigger] r@[k]).button == button,
        forall|k: int|
            0 <= k < r@.len() && (#[trigger] r@[k]).button == button ==> r@[k].pressed == (bit_of(
                after,
                button,
            ) == 1),
{
    let left = crate::input::remote::change_of(before, after, 0, 0x110);
    let middle = crate::input::remote::change_of(before, after, 1, 0x112);
    let right = crate::input::remote::change_of(before, after, 2, 0x111);
    assert(r@ =~= left + middle + right);
    if left.len() > 0 {
        assert(r@[0] == left[0]);
    }
    if middle.len() > 0 {
        assert(r@[left.len() as int] == middle[0]);
    }
    if right.len() > 0 {
        assert(r@[(left.len() + middle.len()) as int] == right[0]);
    }
}

/// The digit keys 1 to 9 stand for the workspaces of their numbers, with Shift too.
pub proof fn lemma_digits_name_workspaces(sym: u32, r: Option<usize>, k: int)
    requires
        call_ensures(keysym_to_workspace, (sym,), r),
        0 <= k < 9,
    ensures
        sym == digit_row()[k] as u32 || sym == shifted_digit_row()[k] as u32 ==> r == Some(
            (k + 1) as usize,
        ),
        r matches Some(n) ==> 1 <= n <= 9,
{
    if k == 0 {
    } else if k == 1 {
    } else if k == 2 {
    } else if k == 3 {
    } else if k == 4 {
    } else if k == 5 {
    } else if k == 6 {
    } else if k == 7 {
    } else {
        assert(k == 8);
    }
}

/// What Alt and a key are for, on any keyboard.
pub open spec fn bound_everywhere(sym: u32, action: KeyAction) -> bool {
    ||| sym == 'd' as u32 && action is LaunchLauncher
    ||| sym == 'q' as u32 && action is CloseWindow
    ||| sym == 'Q' as u32 && action is Quit
    ||| sym == 'j' as u32 && action is FocusNext
    ||| sym == 'k' as u32 && action is FocusPrev
    ||| sym == ' ' as u32 && action is SwapMaster
    // Return
    ||| sym == 0xff0d && action is LaunchTerminal
}

/// What Alt and a key are for on the keyboard of a remote client.
pub open spec fn bound_remotely(sym: u32, action: KeyAction) -> bool {
    ||| sym == 'h' as u32 && action is MasterShrink
    ||| sym == 'l' as u32 && action is MasterGrow
    ||| sym == 'f' as u32 && action is ToggleFullscreen
    ||| sym == 'v' as u32 && action is ToggleFloat
    ||| sym == 'm' as u32 && action is CycleLayoutForward
    ||| sym == 'M' as u32 && action is CycleLayoutBackward
    ||| sym == '+' as u32 && action is ResolutionUp
    ||| sym == '=' as u32 && action is ResolutionUp
    ||| sym == '-' as u32 && action is ResolutionDown
    ||| sym == ',' as u32 && action is FocusOutputLeft
    ||| sym == '.' as u32 && action is FocusOutputRight
    ||| sym == '<' as u32 && action is MoveToOutputLeft
    ||| sym == '>' as u32 && action is MoveToOutputRight
}

/// With Alt, a digit key switches to a workspace, and with Shift moves the window there; the other bound
/// keys do what they are for. All act on the press, and the compositor keeps the release too.
pub proof fn lemma_bound_keys_act(
    source: KeySource,
    bindings: &[PluginKeybinding],
    mods: Modifiers,
    sym: u32,
    down: KeyFilter,
    up: KeyFilter,
    action: KeyAction,
    n: Option<usize>,
)
    requires
        mods.alt,
        call_ensures(filter_key, (source, bindings, mods, sym, true), down),
        call_ensures(filter_key, (source, bindings, mods, sym, false), up),
        call_ensures(keysym_to_workspace, (sym,), n),
    ensures
        n matches Some(w) ==> {
            &&& mods.shift ==> down == KeyFilter::Intercept(Some(KeyAction::MoveToWorkspace(w)))
            &&& !mods.shift ==> down == KeyFilter::Intercept(Some(KeyAction::SwitchWorkspace(w)))
            &&& up == KeyFilter::Intercept(None)
        },
        bound_everywhere(sym, action) || (source is Remote && bound_remotely(sym, action)) ==> {
            &&& down == KeyFilter::Intercept(Some(action))
            &&& up == KeyFilter::Intercept(None)
        },
{
}

/// A key that the compositor has no use for goes to the first plugin that has bound it with exactly the
/// modifiers that are held, and to the window if there is none.
pub proof fn lemma_other_keys_go_on(
    source: KeySource,
    bindings: &[PluginKeybinding],
    mods: Modifiers,
    sym: u32,
    down: KeyFilter,
    k: int,
)
    requires
        !mods.alt,
        call_ensures(filter_key, (source, bindings, mods, sym, true), down),
    ensures
        0 <= k < bindings@.len() && is_for(bindings@[k], mods, sym) && (forall|j: int|
            0 <= j < k ==> !is_for(#[trigger] bindings@[j], mods, sym)) ==> down
            == KeyFilter::Intercept(Some(KeyAction::PluginCallback(bindings@[k].callback_id))),
        (forall|j: int| 0 <= j < bindings@.len() ==> !is_for(#[trigger] bindings@[j], mods, sym))
            ==> down is Forward,
{
    assert forall|j: int| 0 <= j < bindings@.len() implies binding_matches(
        #[trigger] bindings@[j],
        mods,
        sym,
    ) == is_for(bindings@[j], mods, sym) by {}
    if 0 <= k < bindings@.len() && is_for(bindings@[k], mods, sym) && (forall|j: int|
        0 <= j < k ==> !is_for(#[trigger] bindings@[j], mods, sym)) {
        assert(binding_matches(bindings@[k], mods, sym));
        let i = choose|i: int| #[trigger]
            is_first_binding(bindings@, mods, sym, i) && down
                == crate::input::keys::kept(
                KeyAction::PluginCallback(bindings@[i].callback_id),
                true,
            );
        if i < k {
            assert(!is_for(bindings@[i], mods, sym));
        }
        if k < i {
            assert(!binding_matches(bindings@[k], mods, sym));
        }
    }
    if forall|j: int| 0 <= j < bindings@.len() ==> !is_for(#[trigger] bindings@[j], mods, sym) {
        assert forall|i: int| !#[trigger] is_first_binding(bindings@, mods, sym, i) by {
            if is_first_binding(bindings@, mods, sym, i) {
                assert(!is_for(bindings@[i], mods, sym));
            }
        }
    }
}

/// The binding is for the key, with these modifiers and no others.
pub open spec fn is_for(b: PluginKeybinding, mods: Modifiers, sym: u32) -> bool {
    &&& b.keysym == sym
    &&& b.alt == mods.alt
    &&& b.ctrl == mods.ctrl
    &&& b.shift == mods.shift
    &&& b.logo == mods.logo
}

/// Without words no modifier is meant.
pub proof fn lemma_no_words_no_modifiers(words: &[String], r: Modifiers)
    requires
        call_ensures(parse_modifiers, (words,), r),
        words@.len() == 0,
    ensures
        !r.alt && !r.ctrl && !r.shift && !r.logo,
{
}

/// A common resolution.
pub open spec fn is_common(size: (u16, u16)) -> bool {
    ||| size == (1280u16, 720u16)
    ||| size == (1366u16, 768u16)
    ||| size == (1600u16, 900u16)
    ||| size == (1920u16, 1080u16)
    ||| size == (2560u16, 1440u16)
    ||| size == (3840u16, 2160u16)
}

/// Upwards comes the smallest common resolution that has more pixels, downwards the largest that has
/// fewer. At the ends the resolution is the largest, or the smallest.
pub proof fn lemma_next_resolution(w: u16, h: u16, direction: i32, r: (u16, u16), other: (u16, u16))
    requires
        call_ensures(next_resolution, (w, h, direction), r),
        is_common(other),
    ensures
        is_common(r),
        direction > 0 && other.0 * other.1 > w * h ==> w * h < r.0 * r.1 <= other.0 * other.1,
        direction <= 0 && other.0 * other.1 < w * h ==> other.0 * other.1 <= r.0 * r.1 < w * h,
        direction > 0 && w * h >= 3840 * 2160 ==> r == (3840u16, 2160u16),
        direction <= 0 && w * h <= 1280 * 720 ==> r == (1280u16, 720u16),
{
    let all = crate::input::codes::resolutions();
    assert(all[0] == (1280u16, 720u16) && all[1] == (1366u16, 768u16) && all[2] == (1600u16, 900u16)
        && all[3] == (1920u16, 1080u16) && all[4] == (2560u16, 1440u16) && all[5] == (
        3840u16,
        2160u16,
    ));
    assert(crate::input::codes::area(all[0]) == 921600);
    assert(crate::input::codes::area(all[1]) == 1049088);
    assert(crate::input::codes::area(all[2]) == 1440000);
    assert(crate::input::codes::area(all[3]) == 2073600);
    assert(crate::input::codes::area(all[4]) == 3686400);
    assert(crate::input::codes::area(all[5]) == 8294400);
    assert(other.0 * other.1 == crate::input::codes::area(other));
    assert(r.0 * r.1 == crate::input::codes::area(r));
}

} // verus!
