//! Backgrounds and the text that describes them.

use crate::text::{
    chars_of, is_real, reads_as_real, split, split_on, string_of, trim_chars, trimmed,
};
use vstd::prelude::*;

verus! {

/// A colour: eight bits a channel, or the numbers as they were written.
#[derive(Debug)]
pub enum Color {
    /// "#RRGGBB".
    Hex(u8, u8, u8),
    /// "r,g,b": three texts that stand for numbers.
    Numbers { red: String, green: String, blue: String },
}

/// Background of an output.
#[derive(Debug)]
pub enum Background {
    /// Dark grey.
    Default,
    /// One colour.
    Solid(Color),
    /// From one colour at the top to another at the bottom.
    Gradient { top: Color, bottom: Color },
}

/// A colour as mathematical values.
pub enum Hue {
    Hex(u8, u8, u8),
    Numbers { red: Seq<char>, green: Seq<char>, blue: Seq<char> },
}

/// A background as mathematical values.
pub enum Backdrop {
    Default,
    Solid(Hue),
    Gradient { top: Hue, bottom: Hue },
}

impl View for Color {
    type V = Hue;

    open spec fn view(&self) -> Hue {
        match *self {
            Color::Hex(r, g, b) => Hue::Hex(r, g, b),
            Color::Numbers { red, green, blue } => Hue::Numbers {
                red: red@,
                green: green@,
                blue: blue@,
            },
        }
    }
}

impl View for Background {
    type V = Backdrop;

    open spec fn view(&self) -> Backdrop {
        match *self {
            Background::Default => Backdrop::Default,
            Background::Solid(c) => Backdrop::Solid(c@),
            Background::Gradient { top, bottom } => Backdrop::Gradient {
                top: top@,
                bottom: bottom@,
            },
        }
    }
}

/// Value of a hexadecimal digit.
pub open spec fn hex_digit(c: char) -> Option<int> {
    if '0' <= c <= '9' {
        Some(c as int - 0x30)
    } else if 'a' <= c <= 'f' {
        Some(c as int - 0x61 + 10)
    } else if 'A' <= c <= 'F' {
        Some(c as int - 0x41 + 10)
    } else {
        None
    }
}

/// Value of two characters: two digits, or a plus sign and a digit.
pub open spec fn hex_pair(a: char, b: char) -> Option<int> {
    match hex_digit(b) {
        Some(low) => if a == '+' {
            Some(low)
        } else {
            match hex_digit(a) {
                Some(high) => Some(16 * high + low),
                None => None,
            }
        },
        None => None,
    }
}

/// The colour that six hexadecimal digits stand for.
pub open spec fn hex_color(hex: Seq<char>) -> Option<Hue> {
    if hex.len() == 6 && hex_pair(hex[0], hex[1]) is Some && hex_pair(hex[2], hex[3]) is Some
        && hex_pair(hex[4], hex[5]) is Some {
        Some(
            Hue::Hex(
                hex_pair(hex[0], hex[1])->0 as u8,
                hex_pair(hex[2], hex[3])->0 as u8,
                hex_pair(hex[4], hex[5])->0 as u8,
            ),
        )
    } else {
        None
    }
}

/// The colour that a text stands for.
pub open spec fn color_of(text: Seq<char>) -> Option<Hue> {
    let s = trimmed(text);
    let parts = split_on(s, ',');
    if s.len() > 0 && s[0] == '#' {
        hex_color(s.skip(1))
    } else if parts.len() == 3 && is_real(trimmed(parts[0])) && is_real(trimmed(parts[1]))
        && is_real(trimmed(parts[2])) {
        Some(
            Hue::Numbers {
                red: trimmed(parts[0]),
                green: trimmed(parts[1]),
                blue: trimmed(parts[2]),
            },
        )
    } else {
        None
    }
}

/// A minus sign stands at `i` and parts two colours.
pub open spec fn parts_colors(s: Seq<char>, i: int) -> bool {
    &&& 0 <= i < s.len()
    &&& s[i] == '-'
    &&& color_of(s.take(i)) is Some
    &&& color_of(s.skip(i + 1)) is Some
}

/// The first place from `i` on where a minus sign parts two colours, else the length.
pub open spec fn first_parting(s: Seq<char>, i: int) -> int
    decreases s.len() - i,
{
    if 0 <= i < s.len() && !parts_colors(s, i) {
        first_parting(s, i + 1)
    } else {
        i
    }
}

/// The background that a text stands for: two colours with a minus sign between, or one without
/// any.
pub open spec fn backdrop_of(spec_text: Seq<char>) -> Option<Backdrop> {
    let i = first_parting(spec_text, 0);
    if i < spec_text.len() {
        Some(
            Backdrop::Gradient {
                top: color_of(spec_text.take(i))->0,
                bottom: color_of(spec_text.skip(i + 1))->0,
            },
        )
    } else if spec_text.contains('-') {
        None
    } else {
        match color_of(spec_text) {
            Some(c) => Some(Backdrop::Solid(c)),
            None => None,
        }
    }
}

/// A gradient of two colours, each in either form, is one wherever their texts hold no minus sign.
pub proof fn lemma_two_colors_are_a_gradient(top: Seq<char>, bottom: Seq<char>)
    requires
        color_of(top) is Some,
        color_of(bottom) is Some,
        !top.contains('-'),
    ensures
        backdrop_of(top + seq!['-'] + bottom) == Some(
            Backdrop::Gradient { top: color_of(top)->0, bottom: color_of(bottom)->0 },
        ),
{
    let s = top + seq!['-'] + bottom;
    assert(s.take(top.len() as int) =~= top);
    assert(s.skip(top.len() as int + 1) =~= bottom);
    lemma_parting_is_found(s, 0, top.len() as int);
}

proof fn lemma_parting_is_found(s: Seq<char>, i: int, at: int)
    requires
        0 <= i <= at,
        parts_colors(s, at),
        forall|k: int| i <= k < at ==> s[k] != '-',
    ensures
        first_parting(s, i) == at,
    decreases at - i,
{
    if i < at {
        lemma_parting_is_found(s, i + 1, at);
    }
}

fn parse_hex_digit(c: char) -> (r: Option<u8>)
    ensures
        match r {
            Some(d) => hex_digit(c) == Some(d as int) && d < 16,
            None => hex_digit(c) is None,
        },
{
    if '0' <= c && c <= '9' {
        Some(c as u8 - 0x30)
    } else if 'a' <= c && c <= 'f' {
        Some(c as u8 - 0x61 + 10)
    } else if 'A' <= c && c <= 'F' {
        Some(c as u8 - 0x41 + 10)
    } else {
        None
    }
}

fn parse_hex_pair(a: char, b: char) -> (r: Option<u8>)
    ensures
        match r {
            Some(n) => hex_pair(a, b) == Some(n as int),
            None => hex_pair(a, b) is None,
        },
{
    match parse_hex_digit(b) {
        Some(low) => if a == '+' {
            Some(low)
        } else {
            match parse_hex_digit(a) {
                Some(high) => Some(16 * high + low),
                None => None,
            }
        },
        None => None,
    }
}

/// What a parsed value means.
pub open spec fn hue_view(c: Option<Color>) -> Option<Hue> {
    match c {
        Some(c) => Some(c@),
        None => None,
    }
}

/// The colour that characters stand for.
pub fn parse_color(text: &[char]) -> (r: Option<Color>)
    ensures
        hue_view(r) == color_of(text@),
{
    let s = trim_chars(text);
    if s.len() > 0 && s[0] == '#' {
        if s.len() != 7 {
            return None;
        }
        let ghost hex = s@.skip(1);
        assert(hex[0] == s@[1] && hex[1] == s@[2] && hex[2] == s@[3] && hex[3] == s@[4] && hex[4]
            == s@[5] && hex[5] == s@[6]);
        return match (
            parse_hex_pair(s[1], s[2]),
            parse_hex_pair(s[3], s[4]),
            parse_hex_pair(s[5], s[6]),
        ) {
            (Some(r), Some(g), Some(b)) => Some(Color::Hex(r, g, b)),
            _ => None,
        };
    }
    let owned = string_of(&s);
    let parts = split(owned.as_str(), ',');
    if parts.len() != 3 {
        return None;
    }
    let red = trim_chars(&chars_of(parts[0].as_str()));
    let green = trim_chars(&chars_of(parts[1].as_str()));
    let blue = trim_chars(&chars_of(parts[2].as_str()));
    if reads_as_real(&red) && reads_as_real(&green) && reads_as_real(&blue) {
        Some(
            Color::Numbers {
                red: string_of(&red),
                green: string_of(&green),
                blue: string_of(&blue),
            },
        )
    } else {
        None
    }
}

/// What a parsed background means.
pub open spec fn backdrop_view(b: Option<Background>) -> Option<Backdrop> {
    match b {
        Some(b) => Some(b@),
        None => None,
    }
}

/// Parse a background spec string into a Background.
///
/// Formats:
///   "#RRGGBB"           — solid hex color
///   "r,g,b"             — solid color (0-255 or 0.0-1.0)
///   "#RRGGBB-#RRGGBB"   — vertical gradient (top-bottom)
///   "r,g,b-r,g,b"       — vertical gradient
/// The two colours of a gradient may be written differently.
pub fn parse_background(spec_text: &str) -> (r: Option<Background>)
    ensures
        backdrop_view(r) == backdrop_of(spec_text@),
{
    let s = chars_of(spec_text);
    let mut minus: bool = false;
    let mut i: usize = 0;
    let mut top: Vec<char> = Vec::new();
    while i < s.len()
        invariant
            s@ == spec_text@,
            i <= s@.len(),
            top@ =~= s@.take(i as int),
            first_parting(s@, i as int) == first_parting(s@, 0),
            minus == s@.take(i as int).contains('-'),
        decreases s@.len() - i,
    {
        if s[i] == '-' {
            minus = true;
            let bottom = chars_after(&s, i);
            match (parse_color(&top), parse_color(&bottom)) {
                (Some(top), Some(bottom)) => {
                    assert(parts_colors(s@, i as int));
                    return Some(Background::Gradient { top, bottom });
                },
                _ => {},
            }
        }
        proof {
            let shorter = s@.take(i as int);
            let longer = s@.take(i + 1);
            assert(longer =~= shorter.push(s@[i as int]));
            assert(longer[i as int] == s@[i as int]);
            if shorter.contains('-') {
                let k = choose|k: int| 0 <= k < shorter.len() && shorter[k] == '-';
                assert(longer[k] == '-');
            }
        }
        top.push(s[i]);
        i = i + 1;
    }
    assert(s@.take(i as int) =~= s@);
    if minus {
        return None;
    }
    match parse_color(&s) {
        Some(c) => Some(Background::Solid(c)),
        None => None,
    }
}

/// The characters behind a place.
fn chars_after(s: &[char], i: usize) -> (r: Vec<char>)
    requires
        i < s@.len(),
    ensures
        r@ == s@.skip(i + 1),
{
    let mut r: Vec<char> = Vec::new();
    let n: usize = s.len();
    let mut k: usize = i + 1;
    while k < n
        invariant
            n == s@.len(),
            i < s@.len(),
            i + 1 <= k <= s@.len(),
            r@ =~= s@.subrange(i + 1, k as int),
        decreases s@.len() - k,
    {
        r.push(s[k]);
        k = k + 1;
    }
    assert(r@ =~= s@.skip(i + 1));
    r
}

} // verus!
