//! Codes of keys and pointer buttons.

use crate::text::{chars_of, is_same_ignoring_case, same_ignoring_case};
use vstd::prelude::*;

verus! {

/// Left button of the pointer.
pub const BTN_LEFT: u32 = 0x110;

/// Right button of the pointer.
pub const BTN_RIGHT: u32 = 0x111;

/// Middle button of the pointer.
pub const BTN_MIDDLE: u32 = 0x112;

/// Distance between a keycode of the kernel and that of XKB.
pub const XKB_OFFSET: u32 = 8;

/// The kernel's keycode of the key that gives an X11 keysym on a US keyboard.
pub open spec fn evdev_of_keysym(keysym: u32) -> Option<u32> {
    match keysym {
        // a and A
        0x61 | 0x41 => Some(30),
        // b and B
        0x62 | 0x42 => Some(48),
        // c and C
        0x63 | 0x43 => Some(46),
        // d and D
        0x64 | 0x44 => Some(32),
        // e and E
        0x65 | 0x45 => Some(18),
        // f and F
        0x66 | 0x46 => Some(33),
        // g and G
        0x67 | 0x47 => Some(34),
        // h and H
        0x68 | 0x48 => Some(35),
        // i and I
        0x69 | 0x49 => Some(23),
        // j and J
        0x6a | 0x4a => Some(36),
        // k and K
        0x6b | 0x4b => Some(37),
        // l and L
        0x6c | 0x4c => Some(38),
        // m and M
        0x6d | 0x4d => Some(50),
        // n and N
        0x6e | 0x4e => Some(49),
        // o and O
        0x6f | 0x4f => Some(24),
        // p and P
        0x70 | 0x50 => Some(25),
        // q and Q
        0x71 | 0x51 => Some(16),
        // r and R
        0x72 | 0x52 => Some(19),
        // s and S
        0x73 | 0x53 => Some(31),
        // t and T
        0x74 | 0x54 => Some(20),
        // u and U
        0x75 | 0x55 => Some(22),
        // v and V
        0x76 | 0x56 => Some(47),
        // w and W
        0x77 | 0x57 => Some(17),
        // x and X
        0x78 | 0x58 => Some(45),
        // y and Y
        0x79 | 0x59 => Some(21),
        // z and Z
        0x7a | 0x5a => Some(44),
        // 1 and !
        0x31 | 0x21 => Some(2),
        // 2 and @
        0x32 | 0x40 => Some(3),
        // 3 and #
        0x33 | 0x23 => Some(4),
        // 4 and $
        0x34 | 0x24 => Some(5),
        // 5 and %
        0x35 | 0x25 => Some(6),
        // 6 and ^
        0x36 | 0x5e => Some(7),
        // 7 and &
        0x37 | 0x26 => Some(8),
        // 8 and *
        0x38 | 0x2a => Some(9),
        // 9 and (
        0x39 | 0x28 => Some(10),
        // 0 and )
        0x30 | 0x29 => Some(11),
        // Return
        0xff0d => Some(28),
        // Escape
        0xff1b => Some(1),
        // Backspace
        0xff08 => Some(14),
        // Tab
        0xff09 => Some(15),
        // space
        0x20 => Some(57),
        // - and _
        0x2d | 0x5f => Some(12),
        // = and +
        0x3d | 0x2b => Some(13),
        // [ and {
        0x5b | 0x7b => Some(26),
        // ] and }
        0x5d | 0x7d => Some(27),
        // backslash and |
        0x5c | 0x7c => Some(43),
        // ; and :
        0x3b | 0x3a => Some(39),
        // ' and "
        0x27 | 0x22 => Some(40),
        // ` and ~
        0x60 | 0x7e => Some(41),
        // , and <
        0x2c | 0x3c => Some(51),
        // . and >
        0x2e | 0x3e => Some(52),
        // / and ?
        0x2f | 0x3f => Some(53),
        // left Shift
        0xffe1 => Some(42),
        // right Shift
        0xffe2 => Some(54),
        // left Control
        0xffe3 => Some(29),
        // right Control
        0xffe4 => Some(97),
        // left Alt
        0xffe9 => Some(56),
        // right Alt
        0xffea => Some(100),
        // left Super
        0xffeb => Some(125),
        // right Super
        0xffec => Some(126),
        // Caps Lock
        0xffe5 => Some(58),
        // F1
        0xffbe => Some(59),
        // F2
        0xffbf => Some(60),
        // F3
        0xffc0 => Some(61),
        // F4
        0xffc1 => Some(62),
        // F5
        0xffc2 => Some(63),
        // F6
        0xffc3 => Some(64),
        // F7
        0xffc4 => Some(65),
        // F8
        0xffc5 => Some(66),
        // F9
        0xffc6 => Some(67),
        // F10
        0xffc7 => Some(68),
        // F11
        0xffc8 => Some(87),
        // F12
        0xffc9 => Some(88),
        // Home
        0xff50 => Some(102),
        // End
        0xff57 => Some(107),
        // Page Up
        0xff55 => Some(104),
        // Page Down
        0xff56 => Some(109),
        // Up
        0xff52 => Some(103),
        // Down
        0xff54 => Some(108),
        // Left
        0xff51 => Some(105),
        // Right
        0xff53 => Some(106),
        // Insert
        0xff63 => Some(110),
        // Delete
        0xffff => Some(111),
        _ => None,
    }
}

/// Convert an X11 keysym to an XKB keycode (evdev + 8).
pub fn xkeysym_to_xkb_keycode(keysym: u32) -> (r: Option<u32>)
    ensures
        r == (match evdev_of_keysym(keysym) {
            Some(code) => Some((code + XKB_OFFSET) as u32),
            None => None,
        }),
{
    let evdev: u32 = match keysym {
        0x61 | 0x41 => 30,
        0x62 | 0x42 => 48,
        0x63 | 0x43 => 46,
        0x64 | 0x44 => 32,
        0x65 | 0x45 => 18,
        0x66 | 0x46 => 33,
        0x67 | 0x47 => 34,
        0x68 | 0x48 => 35,
        0x69 | 0x49 => 23,
        0x6a | 0x4a => 36,
        0x6b | 0x4b => 37,
        0x6c | 0x4c => 38,
        0x6d | 0x4d => 50,
        0x6e | 0x4e => 49,
        0x6f | 0x4f => 24,
        0x70 | 0x50 => 25,
        0x71 | 0x51 => 16,
        0x72 | 0x52 => 19,
        0x73 | 0x53 => 31,
        0x74 | 0x54 => 20,
        0x75 | 0x55 => 22,
        0x76 | 0x56 => 47,
        0x77 | 0x57 => 17,
        0x78 | 0x58 => 45,
        0x79 | 0x59 => 21,
        0x7a | 0x5a => 44,
        0x31 | 0x21 => 2,
        0x32 | 0x40 => 3,
        0x33 | 0x23 => 4,
        0x34 | 0x24 => 5,
        0x35 | 0x25 => 6,
        0x36 | 0x5e => 7,
        0x37 | 0x26 => 8,
        0x38 | 0x2a => 9,
        0x39 | 0x28 => 10,
        0x30 | 0x29 => 11,
        0xff0d => 28,
        0xff1b => 1,
        0xff08 => 14,
        0xff09 => 15,
        0x20 => 57,
        0x2d | 0x5f => 12,
        0x3d | 0x2b => 13,
        0x5b | 0x7b => 26,
        0x5d | 0x7d => 27,
        0x5c | 0x7c => 43,
        0x3b | 0x3a => 39,
        0x27 | 0x22 => 40,
        0x60 | 0x7e => 41,
        0x2c | 0x3c => 51,
        0x2e | 0x3e => 52,
        0x2f | 0x3f => 53,
        0xffe1 => 42,
        0xffe2 => 54,
        0xffe3 => 29,
        0xffe4 => 97,
        0xffe9 => 56,
        0xffea => 100,
        0xffeb => 125,
        0xffec => 126,
        0xffe5 => 58,
        0xffbe => 59,
        0xffbf => 60,
        0xffc0 => 61,
        0xffc1 => 62,
        0xffc2 => 63,
        0xffc3 => 64,
        0xffc4 => 65,
        0xffc5 => 66,
        0xffc6 => 67,
        0xffc7 => 68,
        0xffc8 => 87,
        0xffc9 => 88,
        0xff50 => 102,
        0xff57 => 107,
        0xff55 => 104,
        0xff56 => 109,
        0xff52 => 103,
        0xff54 => 108,
        0xff51 => 105,
        0xff53 => 106,
        0xff63 => 110,
        0xffff => 111,
        _ => {
            return None;
        },
    };
    Some(evdev + XKB_OFFSET)
}

/// The kernel's keycode of a scan code that stands behind an 0xE0 prefix.
pub open spec fn evdev_of_extended(code: u8) -> Option<u32> {
    match code {
        // Enter of the keypad
        0x1c => Some(96),
        // right Control
        0x1d => Some(97),
        // / of the keypad
        0x35 => Some(98),
        // Print Screen
        0x37 => Some(99),
        // right Alt
        0x38 => Some(100),
        // Pause
        0x46 => Some(119),
        // Home
        0x47 => Some(102),
        // Up
        0x48 => Some(103),
        // Page Up
        0x49 => Some(104),
        // Left
        0x4b => Some(105),
        // Right
        0x4d => Some(106),
        // End
        0x4f => Some(107),
        // Down
        0x50 => Some(108),
        // Page Down
        0x51 => Some(109),
        // Insert
        0x52 => Some(110),
        // Delete
        0x53 => Some(111),
        // left Super
        0x5b => Some(125),
        // right Super
        0x5c => Some(126),
        // Menu
        0x5d => Some(127),
        _ => None,
    }
}

/// The XKB keycode of an RDP scan code. Codes without a prefix are the kernel's own.
pub open spec fn xkb_of_scancode(code: u8, extended: bool) -> Option<u32> {
    if extended {
        match evdev_of_extended(code) {
            Some(evdev) => Some((evdev + XKB_OFFSET) as u32),
            None => None,
        }
    } else {
        Some((code + XKB_OFFSET) as u32)
    }
}

/// Convert an RDP scan code (Windows/XT Set 1) to an XKB keycode (evdev + 8).
///
/// RDP keyboard events provide a scan code byte and an `extended` flag.
/// Non-extended scan codes map 1:1 to evdev keycodes.
/// Extended scan codes (0xE0 prefix keys) need a lookup table.
pub fn rdp_scancode_to_xkb(code: u8, extended: bool) -> (r: Option<u32>)
    ensures
        r == xkb_of_scancode(code, extended),
{
    let evdev: u32 = if extended {
        match code {
            0x1c => 96,
            0x1d => 97,
            0x35 => 98,
            0x37 => 99,
            0x38 => 100,
            0x46 => 119,
            0x47 => 102,
            0x48 => 103,
            0x49 => 104,
            0x4b => 105,
            0x4d => 106,
            0x4f => 107,
            0x50 => 108,
            0x51 => 109,
            0x52 => 110,
            0x53 => 111,
            0x5b => 125,
            0x5c => 126,
            0x5d => 127,
            _ => {
                return None;
            },
        }
    } else {
        code as u32
    };
    Some(evdev + XKB_OFFSET)
}

/// Lowercase and uppercase letters are on the same key.
pub proof fn lemma_case_shares_key(letter: u32)
    requires
        0x61 <= letter <= 0x7a,
    ensures
        evdev_of_keysym(letter) is Some,
        evdev_of_keysym(letter) == evdev_of_keysym((letter - 0x20) as u32),
{
}

/// Scan codes with the same prefix stand for different keys.
pub proof fn lemma_scancodes_differ(a: u8, b: u8, extended: bool)
    requires
        a != b,
        xkb_of_scancode(a, extended) is Some,
    ensures
        xkb_of_scancode(a, extended) != xkb_of_scancode(b, extended),
{
}

/// Modifier keys.
#[derive(Debug, Clone, Copy, PartialEq, Eq, Structural)]
pub struct Modifiers {
    pub alt: bool,
    pub ctrl: bool,
    pub shift: bool,
    pub logo: bool,
}

/// One of the texts is the word, in any case.
pub open spec fn names_word(mods: Seq<String>, word: Seq<char>) -> bool {
    exists|i: int| 0 <= i < mods.len() && same_ignoring_case(#[trigger] mods[i]@, word)
}

fn has_word(mods: &[String], word: &str) -> (r: bool)
    ensures
        r == names_word(mods@, word@),
{
    let w = chars_of(word);
    let mut i: usize = 0;
    while i < mods.len()
        invariant
            i <= mods@.len(),
            w@ == word@,
            forall|j: int| 0 <= j < i ==> !same_ignoring_case(#[trigger] mods@[j]@, word@),
        decreases mods@.len() - i,
    {
        if is_same_ignoring_case(&chars_of(mods[i].as_str()), &w) {
            assert(same_ignoring_case(mods@[i as int]@, word@));
            return true;
        }
        i = i + 1;
    }
    false
}

/// Parse modifier strings like "Alt", "Ctrl", "Shift", "Super".
pub fn parse_modifiers(mods: &[String]) -> (r: Modifiers)
    ensures
        r.alt == (names_word(mods@, "alt"@) || names_word(mods@, "mod1"@)),
        r.ctrl == (names_word(mods@, "ctrl"@) || names_word(mods@, "control"@)),
        r.shift == names_word(mods@, "shift"@),
        r.logo == (names_word(mods@, "super"@) || names_word(mods@, "logo"@) || names_word(
            mods@,
            "mod4"@,
        )),
{
    Modifiers {
        alt: has_word(mods, "alt") || has_word(mods, "mod1"),
        ctrl: has_word(mods, "ctrl") || has_word(mods, "control"),
        shift: has_word(mods, "shift"),
        logo: has_word(mods, "super") || has_word(mods, "logo") || has_word(mods, "mod4"),
    }
}

/// Common resolutions, smallest first.
pub open spec fn resolutions() -> Seq<(u16, u16)> {
    seq![
        (1280u16, 720u16),
        (1366u16, 768u16),
        (1600u16, 900u16),
        (1920u16, 1080u16),
        (2560u16, 1440u16),
        (3840u16, 2160u16),
    ]
}

/// Number of pixels.
pub open spec fn area(size: (u16, u16)) -> int {
    size.0 * size.1
}

/// The neighbour of a number of pixels among the common resolutions: upwards the first that is
/// larger, else the largest; downwards the last that is smaller, else the smallest.
pub open spec fn is_neighbour_resolution(pixels: int, up: bool, r: (u16, u16)) -> bool {
    let all = resolutions();
    if up {
        ||| exists|i: int|
            {
                &&& 0 <= i < all.len()
                &&& r == #[trigger] all[i]
                &&& area(all[i]) > pixels
                &&& forall|j: int| 0 <= j < i ==> area(#[trigger] all[j]) <= pixels
            }
        ||| r == all.last() && forall|j: int|
            0 <= j < all.len() ==> area(#[trigger] all[j]) <= pixels
    } else {
        ||| exists|i: int|
            {
                &&& 0 <= i < all.len()
                &&& r == #[trigger] all[i]
                &&& area(all[i]) < pixels
                &&& forall|j: int| i < j < all.len() ==> area(#[trigger] all[j]) >= pixels
            }
        ||| r == all[0] && forall|j: int|
            0 <= j < all.len() ==> area(#[trigger] all[j]) >= pixels
    }
}

/// The next common resolution, upwards for a positive direction.
pub fn next_resolution(current_w: u16, current_h: u16, direction: i32) -> (r: (u16, u16))
    ensures
        is_neighbour_resolution(current_w * current_h, direction > 0, r),
{
    let all: Vec<(u16, u16)> = vec![
        (1280, 720),
        (1366, 768),
        (1600, 900),
        (1920, 1080),
        (2560, 1440),
        (3840, 2160),
    ];
    assert(all@ =~= resolutions());
    assert(current_w * current_h <= 0xffff * 0xffff) by (nonlinear_arith)
        requires
            current_w <= 0xffff,
            current_h <= 0xffff,
    ;
    let pixels: u32 = current_w as u32 * current_h as u32;
    if direction > 0 {
        let mut i: usize = 0;
        while i < all.len()
            invariant
                i <= all@.len(),
                all@ == resolutions(),
                pixels == current_w * current_h,
                direction > 0,
                forall|j: int| 0 <= j < i ==> area(#[trigger] resolutions()[j]) <= pixels,
            decreases all@.len() - i,
        {
            let (w, h) = all[i];
            assert(all@[i as int] == (w, h));
            assert(w <= 3840 && h <= 2160);
            assert(w * h <= 3840 * 2160) by (nonlinear_arith)
                requires
                    w <= 3840,
                    h <= 2160,
            ;
            if w as u32 * h as u32 > pixels {
                return (w, h);
            }
            i = i + 1;
        }
        return (3840, 2160);
    }
    let mut i: usize = all.len();
    while i > 0
        invariant
            i <= all@.len(),
            all@ == resolutions(),
            pixels == current_w * current_h,
            direction <= 0,
            forall|j: int|
                i <= j < resolutions().len() ==> area(#[trigger] resolutions()[j]) >= pixels,
        decreases i,
    {
        let (w, h) = all[i - 1];
        assert(all@[i - 1] == (w, h));
        assert(w <= 3840 && h <= 2160);
        assert(w * h <= 3840 * 2160) by (nonlinear_arith)
            requires
                w <= 3840,
                h <= 2160,
        ;
        if (w as u32 * h as u32) < pixels {
            return (w, h);
        }
        i = i - 1;
    }
    (1280, 720)
}

} // verus!
