//! What is on the clipboard, and how it is passed on.

use crate::clipboard::picture::{
    decoded_image, dib_of_decoded, dib_to_png, png_of_dib, png_to_dib,
};
use crate::clipboard::utf16::{
    byte_units, bytes_text, decode_text, encode_text, encoded, lemma_text_survives,
    lemma_units_read_back, text_bytes, units_of,
};
use crate::compositor::lifecycle::text_view;
use crate::text::{has_prefix, same, starts_with};
use crate::wire::{get32, read_u32};
use vstd::prelude::*;
use vstd::string::*;

verus! {

/// Plain text.
pub const CF_TEXT: u32 = 1;

/// Device-independent bitmap.
pub const CF_DIB: u32 = 8;

/// Text in UTF-16.
pub const CF_UNICODETEXT: u32 = 13;

/// Device-independent bitmap with colour information.
pub const CF_DIBV5: u32 = 17;

/// Shared clipboard state between the RDP backend and the compositor.
#[derive(Debug)]
pub struct ClipboardState {
    /// Current Wayland clipboard text, ready to serve to RDP client.
    pub wayland_text: Option<String>,
    /// Current RDP clipboard text.
    pub rdp_text: Option<String>,
    /// Current Wayland clipboard image (PNG bytes).
    pub wayland_image: Option<Vec<u8>>,
    /// Current RDP clipboard image (PNG bytes).
    pub rdp_image: Option<Vec<u8>>,
    /// Whether the RDP client currently owns the clipboard.
    pub rdp_owns_clipboard: bool,
}

impl Default for ClipboardState {
    fn default() -> (r: Self)
        ensures
            r.wayland_text is None,
            r.rdp_text is None,
            r.wayland_image is None,
            r.rdp_image is None,
            !r.rdp_owns_clipboard,
    {
        ClipboardState {
            wayland_text: None,
            rdp_text: None,
            wayland_image: None,
            rdp_image: None,
            rdp_owns_clipboard: false,
        }
    }
}

/// One of the formats is one of the two.
pub open spec fn offers(formats: Seq<u32>, a: u32, b: u32) -> bool {
    exists|i: int| 0 <= i < formats.len() && (#[trigger] formats[i] == a || formats[i] == b)
}

fn is_offered(formats: &[u32], a: u32, b: u32) -> (r: bool)
    ensures
        r == offers(formats@, a, b),
{
    let mut i: usize = 0;
    while i < formats.len()
        invariant
            i <= formats@.len(),
            forall|j: int| 0 <= j < i ==> #[trigger] formats@[j] != a && formats@[j] != b,
        decreases formats@.len() - i,
    {
        if formats[i] == a || formats[i] == b {
            assert(formats@[i as int] == a || formats@[i as int] == b);
            return true;
        }
        i = i + 1;
    }
    false
}

/// Text first, then a picture.
pub open spec fn format_list(text: bool, picture: bool) -> Seq<u32> {
    (if text {
        seq![CF_UNICODETEXT]
    } else {
        Seq::empty()
    }) + (if picture {
        seq![CF_DIB]
    } else {
        Seq::empty()
    })
}

fn list_formats(text: bool, picture: bool) -> (r: Vec<u32>)
    ensures
        r@ == format_list(text, picture),
{
    let mut r: Vec<u32> = Vec::new();
    if text {
        r.push(CF_UNICODETEXT);
    }
    if picture {
        r.push(CF_DIB);
    }
    assert(r@ =~= format_list(text, picture));
    r
}

/// What the client gets of a format: the text with its end mark, or the picture as a bitmap. None
/// where there is nothing, or the format is another.
pub open spec fn served(
    text: Option<Seq<char>>,
    picture: Option<Seq<u8>>,
    format: u32,
) -> Option<Seq<u8>> {
    if format == CF_UNICODETEXT {
        match text {
            Some(t) => Some(text_bytes(t)),
            None => None,
        }
    } else if format == CF_DIB {
        match picture {
            Some(file) => dib_of_decoded(decoded_image(file)),
            None => None,
        }
    } else {
        None
    }
}

/// Data starts with the size of a bitmap's header, and more follows than zeros. A character and
/// the zeros behind it are text.
pub open spec fn looks_like_dib(data: Seq<u8>) -> bool {
    &&& data.len() >= 4
    &&& exists|i: int| 4 <= i < data.len() && #[trigger] data[i] != 0
    &&& {
        ||| get32(data, 0) == 40
        ||| get32(data, 0) == 56
        ||| get32(data, 0) == 108
        ||| get32(data, 0) == 124
    }
}

/// Bytes, where there are some.
pub open spec fn bytes_view(bytes: Option<Vec<u8>>) -> Option<Seq<u8>> {
    match bytes {
        Some(b) => Some(b@),
        None => None,
    }
}

/// What data of the client does to the state.
pub open spec fn received(before: ClipboardState, after: ClipboardState, data: Seq<u8>) -> bool {
    &&& after.wayland_text == before.wayland_text
    &&& after.wayland_image == before.wayland_image
    &&& if looks_like_dib(data) {
        &&& after.rdp_text == before.rdp_text
        &&& match png_of_dib(data) {
            Ok(file) => bytes_view(after.rdp_image) == Some(file) && after.rdp_owns_clipboard,
            Err(_) => after == before,
        }
    } else if data.len() >= 2 {
        &&& after.rdp_image == before.rdp_image
        &&& text_view(after.rdp_text) == Some(bytes_text(data))
        &&& after.rdp_owns_clipboard
    } else {
        after == before
    }
}

impl ClipboardState {
    /// Formats that are offered to a client when its channel is ready.
    pub fn available_formats(&self) -> (r: Vec<u32>)
        ensures
            r@ == format_list(self.wayland_text is Some, self.wayland_image is Some),
    {
        list_formats(self.wayland_text.is_some(), self.wayland_image.is_some())
    }

    /// The client copied something in these formats. Returns those that are asked for.
    pub fn remote_copy(&mut self, formats: &[u32]) -> (r: Vec<u32>)
        ensures
            *final(self) == (ClipboardState { rdp_owns_clipboard: true, ..*old(self) }),
            r@ == format_list(
                offers(formats@, CF_UNICODETEXT, CF_TEXT),
                offers(formats@, CF_DIB, CF_DIBV5),
            ),
    {
        self.rdp_owns_clipboard = true;
        list_formats(
            is_offered(formats, CF_UNICODETEXT, CF_TEXT),
            is_offered(formats, CF_DIB, CF_DIBV5),
        )
    }

    /// The client pastes. Returns the data; none is an error.
    pub fn format_data(&self, format: u32) -> (r: Option<Vec<u8>>)
        ensures
            bytes_view(r) == served(
                text_view(self.wayland_text),
                bytes_view(self.wayland_image),
                format,
            ),
    {
        if format == CF_UNICODETEXT {
            match &self.wayland_text {
                Some(text) => Some(encode_text(text.as_str())),
                None => None,
            }
        } else if format == CF_DIB {
            match &self.wayland_image {
                Some(file) => png_to_dib(file),
                None => None,
            }
        } else {
            None
        }
    }

    /// The client sent what it had copied. A bitmap is known by the size of its header and what
    /// follows; all else is text.
    pub fn format_response(&mut self, data: &[u8])
        ensures
            received(*old(self), *final(self), data@),
    {
        let dib = if data.len() >= 4 && has_more(data) {
            let size: u32 = read_u32(data, 0);
            size == 40 || size == 56 || size == 108 || size == 124
        } else {
            false
        };
        if dib {
            match dib_to_png(data) {
                Ok(file) => {
                    self.rdp_image = Some(file);
                    self.rdp_owns_clipboard = true;
                },
                Err(_) => {},
            }
        } else if data.len() >= 2 {
            self.rdp_text = Some(decode_text(data));
            self.rdp_owns_clipboard = true;
        }
    }

    /// Takes the client's text, if there is some that no application has got yet.
    pub fn take_rdp_text(&mut self) -> (r: Option<String>)
        ensures
            r == (if old(self).rdp_owns_clipboard {
                old(self).rdp_text
            } else {
                None
            }),
            *final(self) == (if r is Some {
                ClipboardState { rdp_text: None, rdp_owns_clipboard: false, ..*old(self) }
            } else {
                *old(self)
            }),
    {
        if self.rdp_owns_clipboard {
            let text = self.rdp_text.take();
            if text.is_some() {
                self.rdp_owns_clipboard = false;
            }
            text
        } else {
            None
        }
    }

    /// An application copied text. Returns the formats that the client is offered.
    pub fn wayland_copied(&mut self, text: String) -> (r: Vec<u32>)
        ensures
            *final(self) == (ClipboardState {
                wayland_text: Some(text),
                rdp_owns_clipboard: false,
                ..*old(self)
            }),
            r@ == seq![CF_UNICODETEXT],
    {
        self.wayland_text = Some(text);
        self.rdp_owns_clipboard = false;
        let mut r: Vec<u32> = Vec::new();
        r.push(CF_UNICODETEXT);
        r
    }
}

/// Whether more than zeros follows the first four bytes.
fn has_more(data: &[u8]) -> (r: bool)
    ensures
        r == exists|i: int| 4 <= i < data@.len() && #[trigger] data@[i] != 0,
{
    let mut i: usize = 4;
    while i < data.len()
        invariant
            4 <= i,
            forall|k: int| 4 <= k < i && k < data@.len() ==> #[trigger] data@[k] == 0,
        decreases data@.len() - i,
    {
        if data[i] != 0 {
            assert(data@[i as int] != 0);
            return true;
        }
        i = i + 1;
    }
    false
}

/// A text without zero characters is never taken for a bitmap.
pub proof fn lemma_text_is_no_bitmap(text: Seq<char>)
    requires
        !text.contains('\0'),
    ensures
        !looks_like_dib(text_bytes(text)),
{
    let units = encoded(text).push(0);
    let data = text_bytes(text);
    lemma_units_read_back(units);
    if looks_like_dib(data) {
        assert(byte_units(data)[0] == units[0]);
        assert(byte_units(data)[1] == units[1]);
        assert(units[1] == 0);
        if text.len() > 0 {
            let c = text[0];
            let rest = text.skip(1);
            vstd::utf8::char_is_scalar(c);
            assert(encoded(text) == units_of(c) + encoded(rest));
            assert(units[0] == units_of(c)[0]);
            assert(units_of(c).len() == 1);
            if text.len() > 1 {
                let d = text[1];
                vstd::utf8::char_is_scalar(d);
                assert(text.contains(d));
                assert(rest[0] == d);
                assert(encoded(rest) == units_of(d) + encoded(rest.skip(1)));
                assert(units[1] == units_of(d)[0]);
                let v = d as u32;
                vstd::utf8::char_u32_cast(d, v);
                assert(d != '\0');
                assert(v != 0);
                if v < 0x10000 {
                    assert(v as u16 == v);
                } else {
                    assert(0xd800 <= 0xd800 + (v - 0x10000) / 0x400 < 0xdc00);
                }
                assert(false);
            } else {
                assert(encoded(rest).len() == 0);
                assert(units.len() == 2);
                assert(data.len() == 4);
                assert(false);
            }
        } else {
            assert(encoded(text).len() == 0);
            assert(data.len() == 2);
        }
    }
}

/// Text that an application copies comes to the client as it is, and text that the client sends in
/// the same form comes back as it is, unless it is taken for a bitmap.
pub proof fn lemma_text_goes_both_ways(before: ClipboardState, after: ClipboardState, text: Seq<char>)
    requires
        text.len() > 0 ==> text.last() != '\0',
        !looks_like_dib(text_bytes(text)),
        received(before, after, text_bytes(text)),
    ensures
        served(Some(text), None, CF_UNICODETEXT) == Some(text_bytes(text)),
        text_view(after.rdp_text) == Some(text),
        after.rdp_owns_clipboard,
{
    lemma_text_survives(text);
    lemma_units_read_back(
        encoded(text).push(0),
    );
}

/// A type of picture that is read from applications.
pub open spec fn is_image_type(mime: Seq<char>) -> bool {
    has_prefix(mime, "image/png"@) || has_prefix(mime, "image/bmp"@)
}

/// A type of text that is read from applications.
pub open spec fn is_text_type(mime: Seq<char>) -> bool {
    ||| has_prefix(mime, "text/plain"@)
    ||| has_prefix(mime, "text/utf8"@)
    ||| has_prefix(mime, "UTF8_STRING"@)
    ||| has_prefix(mime, "STRING"@)
}

/// None of the types is one of a picture.
pub open spec fn holds_no_image(mimes: Seq<String>) -> bool {
    forall|j: int| 0 <= j < mimes.len() ==> !is_image_type((#[trigger] mimes[j])@)
}

/// None of the types is one of a text.
pub open spec fn holds_no_text(mimes: Seq<String>) -> bool {
    forall|j: int| 0 <= j < mimes.len() ==> !is_text_type((#[trigger] mimes[j])@)
}

/// The first picture among the types that an application offers.
pub fn image_mime(mimes: &[String]) -> (r: Option<usize>)
    ensures
        match r {
            Some(i) => i < mimes@.len() && is_image_type(mimes@[i as int]@) && forall|j: int|
                0 <= j < i ==> !is_image_type((#[trigger] mimes@[j])@),
            None => forall|j: int|
                0 <= j < mimes@.len() ==> !is_image_type((#[trigger] mimes@[j])@),
        },
        r is None ==> holds_no_image(mimes@),
{
    let mut i: usize = 0;
    while i < mimes.len()
        invariant
            i <= mimes@.len(),
            forall|j: int| 0 <= j < i ==> !is_image_type((#[trigger] mimes@[j])@),
        decreases mimes@.len() - i,
    {
        let mime = mimes[i].as_str();
        if starts_with(mime, "image/png") || starts_with(mime, "image/bmp") {
            return Some(i);
        }
        i = i + 1;
    }
    None
}

/// The first text among the types that an application offers.
pub fn text_mime(mimes: &[String]) -> (r: Option<usize>)
    ensures
        match r {
            Some(i) => i < mimes@.len() && is_text_type(mimes@[i as int]@) && forall|j: int|
                0 <= j < i ==> !is_text_type((#[trigger] mimes@[j])@),
            None => forall|j: int|
                0 <= j < mimes@.len() ==> !is_text_type((#[trigger] mimes@[j])@),
        },
        r is None ==> holds_no_text(mimes@),
{
    let mut i: usize = 0;
    while i < mimes.len()
        invariant
            i <= mimes@.len(),
            forall|j: int| 0 <= j < i ==> !is_text_type((#[trigger] mimes@[j])@),
        decreases mimes@.len() - i,
    {
        let mime = mimes[i].as_str();
        if starts_with(mime, "text/plain") || starts_with(mime, "text/utf8") || starts_with(
            mime,
            "UTF8_STRING",
        ) || starts_with(mime, "STRING") {
            return Some(i);
        }
        i = i + 1;
    }
    None
}

/// Whether an application that asks for this type gets the client's text.
pub fn serves_text(mime: &str) -> (r: bool)
    ensures
        r == (has_prefix(mime@, "text/plain"@) || mime@ == "UTF8_STRING"@ || mime@ == "STRING"@),
{
    starts_with(mime, "text/plain") || same(mime, "UTF8_STRING") || same(mime, "STRING")
}

/// Types under which the client's text is offered to applications.
pub fn offered_types() -> (r: Vec<String>)
    ensures
        r@.map_values(|s: String| s@) == seq![
            "text/plain;charset=utf-8"@,
            "text/plain"@,
            "UTF8_STRING"@,
            "STRING"@,
        ],
{
    let mut r: Vec<String> = Vec::new();
    r.push(String::from_str("text/plain;charset=utf-8"));
    r.push(String::from_str("text/plain"));
    r.push(String::from_str("UTF8_STRING"));
    r.push(String::from_str("STRING"));
    assert(r@.map_values(|s: String| s@) =~= seq![
        "text/plain;charset=utf-8"@,
        "text/plain"@,
        "UTF8_STRING"@,
        "STRING"@,
    ]);
    r
}

} // verus!
