//! What the clipboard does with texts and pictures, said of the bytes that go over the wire.

use crate::clipboard::dib::{
    dib_channel, dib_fits, dib_header, dib_of, dib_pixels, lemma_dib_reads_back, make_dib,
    picture_of, picture_pixels, pixel_start, read_dib, row_bytes, DibError, Picture,
};
use crate::clipboard::picture::{decoded_image, dib_to_png, PictureError};
use crate::clipboard::state::{
    holds_no_image, holds_no_text, image_mime, looks_like_dib, offers, serves_text, text_mime,
    ClipboardState,
};
use crate::clipboard::utf16::{
    byte_units, decode_text, encode_text, encoded, lemma_text_survives, lemma_units_read_back,
};
use crate::encode::planes::{lemma_grid_index, lemma_row_col, lemma_split_index};
use crate::text::has_prefix;
use crate::wire::{le16, le32};
use vstd::prelude::*;

verus! {

/// The number in four bytes, the lowest first.
pub open spec fn number_at(s: Seq<u8>, i: int) -> int {
    s[i] + 256 * (s[i + 1] + 256 * (s[i + 2] + 256 * s[i + 3]))
}

/// The number in two bytes, the lower first.
pub open spec fn short_at(s: Seq<u8>, i: int) -> int {
    s[i] + 256 * s[i + 1]
}

/// The bytes of a pixel of a picture are these, red first.
pub open spec fn has_color(
    pixels: Seq<u8>,
    w: int,
    x: int,
    y: int,
    red: u8,
    green: u8,
    blue: u8,
    alpha: u8,
) -> bool {
    let i = 4 * (y * w + x);
    &&& pixels[i] == red
    &&& pixels[i + 1] == green
    &&& pixels[i + 2] == blue
    &&& pixels[i + 3] == alpha
}

/// A bitmap is read if its header is there, its pixels have 24 or 32 bits, and the picture fits in
/// memory. The picture has the width and the height that the header tells.
pub proof fn lemma_bitmaps_are_read(dib: &[u8], r: Result<Picture, DibError>)
    requires
        call_ensures(read_dib, (dib,), r),
    ensures
        r is Ok <==> {
            &&& dib@.len() >= 40
            &&& short_at(dib@, 14) == 24 || short_at(dib@, 14) == 32
            &&& number_at(dib@, 0) <= dib@.len()
            &&& 4 * (number_at(dib@, 4) * told_height(dib@)) <= usize::MAX
        },
        r matches Ok(p) ==> {
            &&& p.width == number_at(dib@, 4)
            &&& p.height == told_height(dib@)
            &&& p.pixels@.len() == 4 * (p.width * p.height)
        },
        dib@.len() < 40 ==> r == Err::<Picture, DibError>(DibError::TooShort),
{
    assert(0 <= number_at(dib@, 4) * told_height(dib@)) by (nonlinear_arith)
        requires
            0 <= number_at(dib@, 4),
            0 <= told_height(dib@),
    ;
}

/// The height that a bitmap's header tells: a negative one stands for rows from the top.
pub open spec fn told_height(dib: Seq<u8>) -> int {
    let h = number_at(dib, 8);
    if h < 0x8000_0000 {
        h
    } else {
        0x1_0000_0000 - h
    }
}

/// Whether a bitmap's rows come from the bottom: its height is positive.
pub open spec fn from_the_bottom(dib: Seq<u8>) -> bool {
    0 < number_at(dib, 8) < 0x8000_0000
}

/// Where a bitmap holds a pixel, if its rows take `stride` bytes.
pub open spec fn spot(dib: Seq<u8>, stride: int, x: int, y: int) -> int {
    let row = if from_the_bottom(dib) {
        told_height(dib) - 1 - y
    } else {
        y
    };
    number_at(dib, 0) + row * stride + x * (short_at(dib, 14) / 8)
}

/// A pixel of a bitmap is its bytes behind the header, blue first: rows are padded to a multiple of four
/// bytes and come from the bottom if the height is positive. With 24 bits a pixel is opaque. A pixel that
/// is not there in full is transparent black.
pub proof fn lemma_pixels_are_read(
    dib: &[u8],
    r: Result<Picture, DibError>,
    stride: int,
    x: int,
    y: int,
)
    requires
        call_ensures(read_dib, (dib,), r),
        r is Ok,
        0 <= x < r->Ok_0.width,
        0 <= y < r->Ok_0.height,
        stride % 4 == 0,
        0 <= stride - r->Ok_0.width * (short_at(dib@, 14) / 8) < 4,
    ensures
        ({
            let pixels = r->Ok_0.pixels@;
            let w = r->Ok_0.width as int;
            let at = spot(dib@, stride, x, y);
            let size = short_at(dib@, 14) / 8;
            if at + size <= dib@.len() {
                has_color(
                    pixels,
                    w,
                    x,
                    y,
                    dib@[at + 2],
                    dib@[at + 1],
                    dib@[at],
                    if size == 4 {
                        dib@[at + 3]
                    } else {
                        255
                    },
                )
            } else {
                has_color(pixels, w, x, y, 0, 0, 0, 0)
            }
        }),
{
    lemma_bitmaps_are_read(dib, r);
    let p = r->Ok_0;
    let (w, h) = (p.width as int, p.height as int);
    let size = short_at(dib@, 14) / 8;
    let header = number_at(dib@, 0);
    let body = dib@.skip(header);
    let up = from_the_bottom(dib@);
    assert(picture_of(dib@) == Ok::<(u32, u32, Seq<u8>), DibError>((p.width, p.height, p.pixels@)));
    assert(p.pixels@ == picture_pixels(body, w, h, up, size));
    assert(stride == row_bytes(w, size));
    let q = y * w + x;
    lemma_grid_index(y, x, w, h);
    lemma_row_col(q, y, x, w);
    let start = pixel_start(w, h, up, size, x, y);
    assert(spot(dib@, stride, x, y) == header + start);
    assert(0 <= start) by (nonlinear_arith)
        requires
            start == (if up {
                h - 1 - y
            } else {
                y
            }) * stride + x * size,
            0 <= y < h,
            0 <= stride,
            0 <= x,
            0 <= size,
    ;
    assert forall|c: int| 0 <= c < 4 implies #[trigger] p.pixels@[4 * q + c] == dib_channel(
        body,
        start,
        size,
        c,
    ) by {
        assert((4 * q + c) / 4 == q && (4 * q + c) % 4 == c);
    }
    assert(p.pixels@[4 * q + 0] == dib_channel(body, start, size, 0));
    assert(p.pixels@[4 * q + 1] == dib_channel(body, start, size, 1));
    assert(p.pixels@[4 * q + 2] == dib_channel(body, start, size, 2));
    assert(p.pixels@[4 * q + 3] == dib_channel(body, start, size, 3));
}

/// A bitmap that holds an opaque picture, with 24 or 32 bits a pixel and its rows in either order, reads
/// back as that picture.
pub proof fn lemma_opaque_pictures_are_read(
    dib: &[u8],
    r: Result<Picture, DibError>,
    stride: int,
    picture: Seq<u8>,
)
    requires
        call_ensures(read_dib, (dib,), r),
        r is Ok,
        stride % 4 == 0,
        0 <= stride - r->Ok_0.width * (short_at(dib@, 14) / 8) < 4,
        picture.len() == 4 * (r->Ok_0.width * r->Ok_0.height),
        forall|x: int, y: int|
            0 <= x < r->Ok_0.width && 0 <= y < r->Ok_0.height ==> {
                let at = #[trigger] spot(dib@, stride, x, y);
                &&& at + short_at(dib@, 14) / 8 <= dib@.len()
                &&& short_at(dib@, 14) == 32 ==> dib@[at + 3] == 255
                &&& has_color(
                    picture,
                    r->Ok_0.width as int,
                    x,
                    y,
                    dib@[at + 2],
                    dib@[at + 1],
                    dib@[at],
                    255,
                )
            },
    ensures
        r->Ok_0.pixels@ == picture,
{
    lemma_bitmaps_are_read(dib, r);
    let p = r->Ok_0;
    let (w, h) = (p.width as int, p.height as int);
    assert forall|i: int| 0 <= i < picture.len() implies p.pixels@[i] == picture[i] by {
        let q = i / 4;
        assert(w > 0) by (nonlinear_arith)
            requires
                0 <= i < 4 * (w * h),
                w >= 0,
                h >= 0,
        ;
        lemma_split_index(q, w, h);
        let (x, y) = (q % w, q / w);
        lemma_pixels_are_read(dib, r, stride, x, y);
        let at = spot(dib@, stride, x, y);
        assert(q == y * w + x);
    }
    assert(p.pixels@ =~= picture);
}

/// The numbers of a bitmap's header.
proof fn lemma_header(w: int, h: int, rest: Seq<u8>)
    requires
        0 <= w <= u32::MAX,
        0 <= h <= u32::MAX,
    ensures
        ({
            let dib = dib_header(w, h) + rest;
            &&& dib_header(w, h).len() == 40
            &&& number_at(dib, 0) == 40
            &&& number_at(dib, 4) == w
            &&& number_at(dib, 8) == h
            &&& short_at(dib, 12) == 1
            &&& short_at(dib, 14) == 32
            &&& number_at(dib, 16) == 0
            &&& 0 <= 4 * (w * h) <= u32::MAX ==> number_at(dib, 20) == 4 * (w * h)
        }),
{
    let dib = dib_header(w, h) + rest;
    let n = 4 * (w * h);
    let (a, b, c) = (le32(40), le32(w), le32(h));
    let (d, e) = (le16(1), le16(32));
    let (f, g) = (le32(0), le32(n));
    assert(dib[0] == a[0] && dib[1] == a[1] && dib[2] == a[2] && dib[3] == a[3]);
    assert(dib[4] == b[0] && dib[5] == b[1] && dib[6] == b[2] && dib[7] == b[3]);
    assert(dib[8] == c[0] && dib[9] == c[1] && dib[10] == c[2] && dib[11] == c[3]);
    assert(dib[12] == d[0] && dib[13] == d[1] && dib[14] == e[0] && dib[15] == e[1]);
    assert(dib[16] == f[0] && dib[17] == f[1] && dib[18] == f[2] && dib[19] == f[3]);
    assert(dib[20] == g[0] && dib[21] == g[1] && dib[22] == g[2] && dib[23] == g[3]);
    lemma_four_bytes(w);
    lemma_four_bytes(h);
    if 0 <= n <= u32::MAX {
        lemma_four_bytes(n);
    }
}

/// Four bytes hold a number.
proof fn lemma_four_bytes(n: int)
    requires
        0 <= n <= u32::MAX,
    ensures
        number_at(le32(n), 0) == n,
{
    let (b0, b1, b2, b3) = (n % 256, n / 0x100 % 256, n / 0x1_0000 % 256, n / 0x100_0000 % 256);
    assert(n == b0 + 256 * (b1 + 256 * (b2 + 256 * b3)));
}

/// A picture is written as a bitmap with a header of forty bytes that tells its size and its depth of 32
/// bits, and behind that its rows from the bottom, each pixel blue first.
pub proof fn lemma_bitmaps_are_written(
    w: u32,
    h: u32,
    pixels: &[u8],
    dib: Vec<u8>,
    x: int,
    y: int,
)
    requires
        dib_fits(w as int, h as int, pixels@),
        call_ensures(make_dib, (w, h, pixels), dib),
        0 <= x < w,
        0 <= y < h,
    ensures
        dib@.len() == 40 + 4 * (w * h),
        number_at(dib@, 0) == 40,
        number_at(dib@, 4) == w,
        number_at(dib@, 8) == h,
        short_at(dib@, 12) == 1,
        short_at(dib@, 14) == 32,
        number_at(dib@, 16) == 0,
        4 * (w * h) <= u32::MAX ==> number_at(dib@, 20) == 4 * (w * h),
        ({
            let at = 40 + 4 * ((h - 1 - y) * w + x);
            has_color(
                pixels@,
                w as int,
                x,
                y,
                dib@[at + 2],
                dib@[at + 1],
                dib@[at],
                dib@[at + 3],
            )
        }),
{
    let (wi, hi) = (w as int, h as int);
    let body = dib_pixels(wi, hi, pixels@);
    assert(0 <= w * h) by (nonlinear_arith)
        requires
            0 <= w,
            0 <= h,
    ;
    assert(dib@ == dib_header(wi, hi) + body);
    lemma_header(wi, hi, body);
    lemma_written_pixel(wi, hi, pixels@, x, y);
    let at = 4 * ((hi - 1 - y) * wi + x);
    lemma_grid_index(hi - 1 - y, x, wi, hi);
    assert(dib@[40 + at] == body[at] && dib@[40 + at + 1] == body[at + 1] && dib@[40 + at + 2]
        == body[at + 2] && dib@[40 + at + 3] == body[at + 3]);
}

/// A pixel of a bitmap that is written.
proof fn lemma_written_pixel(w: int, h: int, pixels: Seq<u8>, x: int, y: int)
    requires
        0 <= x < w,
        0 <= y < h,
    ensures
        ({
            let body = dib_pixels(w, h, pixels);
            let at = 4 * ((h - 1 - y) * w + x);
            has_color(pixels, w, x, y, body[at + 2], body[at + 1], body[at], body[at + 3])
        }),
{
    let row = h - 1 - y;
    let q = row * w + x;
    lemma_grid_index(row, x, w, h);
    lemma_row_col(q, row, x, w);
    assert((4 * q) / 4 == q && (4 * q + 1) / 4 == q && (4 * q + 2) / 4 == q && (4 * q + 3) / 4 == q);
    assert((4 * q) % 4 == 0 && (4 * q + 1) % 4 == 1 && (4 * q + 2) % 4 == 2 && (4 * q + 3) % 4 == 3);
}

/// A text goes to the client and comes back as it was, unless it ends in a zero.
pub proof fn lemma_texts_come_back(text: &str, bytes: Vec<u8>, data: &[u8], back: String)
    requires
        call_ensures(encode_text, (text,), bytes),
        data@ == bytes@,
        call_ensures(decode_text, (data,), back),
        text@.len() > 0 ==> text@.last() != '\0',
    ensures
        back@ == text@,
{
    lemma_text_survives(text@);
}

/// A text of characters below 2^16 takes two bytes for each, the lower first, and two zeros behind.
pub proof fn lemma_texts_are_two_bytes_a_character(text: &str, bytes: Vec<u8>, i: int)
    requires
        call_ensures(encode_text, (text,), bytes),
        forall|k: int| 0 <= k < text@.len() ==> (#[trigger] text@[k]) as u32 <= 0xffff,
        0 <= i < text@.len(),
    ensures
        bytes@.len() == 2 * text@.len() + 2,
        short_at(bytes@, 2 * i) == text@[i] as u32,
        short_at(bytes@, 2 * text@.len() as int) == 0,
{
    let n = text@.len() as int;
    lemma_one_unit_each(text@);
    let u = encoded(text@).push(0);
    lemma_units_read_back(u);
    assert(byte_units(bytes@)[i] == u[i]);
    assert(byte_units(bytes@)[n] == u[n]);
}

proof fn lemma_one_unit_each(s: Seq<char>)
    requires
        forall|k: int| 0 <= k < s.len() ==> (#[trigger] s[k]) as u32 <= 0xffff,
    ensures
        encoded(s).len() == s.len(),
        forall|k: int| 0 <= k < s.len() ==> #[trigger] encoded(s)[k] == s[k] as u32,
    decreases s.len(),
{
    if s.len() > 0 {
        let rest = s.skip(1);
        assert forall|k: int| 0 <= k < rest.len() implies (#[trigger] rest[k]) as u32 <= 0xffff by {
            assert(rest[k] == s[k + 1]);
        }
        lemma_one_unit_each(rest);
        assert(s[0] as u32 <= 0xffff);
        assert forall|k: int| 0 <= k < s.len() implies #[trigger] encoded(s)[k] == s[k] as u32 by {
            if k > 0 {
                assert(encoded(s)[k] == encoded(rest)[k - 1]);
                assert(rest[k - 1] == s[k]);
            }
        }
    }
}

/// Of what the client copied, text is asked for if it is there as text of either kind, and a picture if
/// it is there as a bitmap of either kind; text comes first.
pub proof fn lemma_what_is_asked_for(state: &mut ClipboardState, formats: &[u32], r: Vec<u32>)
    requires
        call_ensures(ClipboardState::remote_copy, (state, formats), r),
    ensures
        final(state).rdp_owns_clipboard,
        final(state).wayland_text == old(state).wayland_text,
        final(state).wayland_image == old(state).wayland_image,
        final(state).rdp_text == old(state).rdp_text,
        final(state).rdp_image == old(state).rdp_image,
        ({
            let text = formats@.contains(13) || formats@.contains(1);
            let picture = formats@.contains(8) || formats@.contains(17);
            r@ == if text && picture {
                seq![13u32, 8u32]
            } else if text {
                seq![13u32]
            } else if picture {
                seq![8u32]
            } else {
                Seq::<u32>::empty()
            }
        }),
{
    let text = formats@.contains(13) || formats@.contains(1);
    let picture = formats@.contains(8) || formats@.contains(17);
    assert(offers(formats@, 13, 1) == text);
    assert(offers(formats@, 8, 17) == picture);
}

/// What is offered to a client is what applications copied: a text as text, a picture as a bitmap.
pub proof fn lemma_what_is_offered(state: ClipboardState, r: Vec<u32>)
    requires
        call_ensures(ClipboardState::available_formats, (&state,), r),
    ensures
        r@.contains(13) <==> state.wayland_text is Some,
        r@.contains(8) <==> state.wayland_image is Some,
        r@.len() <= 2,
        r@.len() == 2 ==> r@[0] == 13,
{
    let text: Seq<u32> = if state.wayland_text is Some {
        seq![13u32]
    } else {
        Seq::empty()
    };
    let picture: Seq<u32> = if state.wayland_image is Some {
        seq![8u32]
    } else {
        Seq::empty()
    };
    assert(r@ == text + picture);
    if state.wayland_text is Some {
        assert(r@[0] == 13);
    }
    if state.wayland_image is Some {
        assert(r@[text.len() as int] == 8);
    }
}

/// A client that pastes text gets what reads as the text that an application copied; without one, or for
/// a format that is neither text nor a bitmap, it gets nothing.
pub proof fn lemma_pasted_text(
    state: ClipboardState,
    format: u32,
    r: Option<Vec<u8>>,
    data: &[u8],
    read: String,
)
    requires
        call_ensures(ClipboardState::format_data, (&state, format), r),
        call_ensures(decode_text, (data,), read),
        r is Some ==> data@ == r->0@,
    ensures
        format == 13 ==> (r is Some <==> state.wayland_text is Some),
        format == 13 && state.wayland_text is Some && (state.wayland_text->0@.len() > 0
            ==> state.wayland_text->0@.last() != '\0') ==> read@ == state.wayland_text->0@,
        format == 8 && state.wayland_image is None ==> r is None,
        format != 13 && format != 8 ==> r is None,
{
    if state.wayland_text is Some && (state.wayland_text->0@.len() > 0
        ==> state.wayland_text->0@.last() != '\0') {
        lemma_text_survives(state.wayland_text->0@);
    }
}

/// A client that pastes a picture gets a bitmap that reads as the picture that an application copied.
pub proof fn lemma_pasted_picture(
    state: ClipboardState,
    r: Option<Vec<u8>>,
    data: &[u8],
    read: Result<Picture, DibError>,
)
    requires
        call_ensures(ClipboardState::format_data, (&state, 8), r),
        call_ensures(read_dib, (data,), read),
        r is Some,
        data@ == r->0@,
        state.wayland_image is Some ==> (decoded_image(state.wayland_image->0@) matches Some((w, h, pixels))
            ==> 0 < w && 0 < h < 0x8000_0000 && pixels.len() == 4 * (w * h)),
    ensures
        state.wayland_image is Some,
        read is Ok,
        decoded_image(state.wayland_image->0@) == Some(
            (read->Ok_0.width, read->Ok_0.height, read->Ok_0.pixels@),
        ),
{
    let file = state.wayland_image->0@;
    let (w, h, pixels) = decoded_image(file)->0;
    lemma_dib_reads_back(w as int, h as int, pixels);
    assert(data@ == dib_of(w as int, h as int, pixels));
}

/// Data that starts with the size of a bitmap's header, and in which more follows than zeros.
pub open spec fn is_bitmap(data: Seq<u8>) -> bool {
    &&& data.len() >= 4
    &&& exists|i: int| 4 <= i < data.len() && #[trigger] data[i] != 0
    &&& number_at(data, 0) == 40 || number_at(data, 0) == 56 || number_at(data, 0) == 108
        || number_at(data, 0) == 124
}

/// What the client sends is its picture if it is a bitmap, else its text; what applications copied stays.
/// A bitmap that is read becomes a file that holds its picture, and other data the text that it reads as.
pub proof fn lemma_what_the_client_sends(
    state: &mut ClipboardState,
    data: &[u8],
    picture: Result<Picture, DibError>,
    text: String,
)
    requires
        call_ensures(ClipboardState::format_response, (state, data), ()),
        call_ensures(read_dib, (data,), picture),
        call_ensures(decode_text, (data,), text),
    ensures
        final(state).wayland_text == old(state).wayland_text,
        final(state).wayland_image == old(state).wayland_image,
        is_bitmap(data@) ==> final(state).rdp_text == old(state).rdp_text,
        is_bitmap(data@) && picture is Err ==> *final(state) == *old(state),
        !is_bitmap(data@) && data@.len() >= 2 ==> {
            &&& final(state).rdp_image == old(state).rdp_image
            &&& final(state).rdp_text is Some
            &&& final(state).rdp_text->0@ == text@
            &&& final(state).rdp_owns_clipboard
        },
        !is_bitmap(data@) && data@.len() < 2 ==> *final(state) == *old(state),
{
    assert(is_bitmap(data@) == looks_like_dib(data@));
}

/// A picture that is written to a file by way of a bitmap is the picture that the bitmap reads as.
pub proof fn lemma_files_hold_the_picture(
    dib: &[u8],
    file: Result<Vec<u8>, PictureError>,
    picture: Result<Picture, DibError>,
)
    requires
        call_ensures(dib_to_png, (dib,), file),
        call_ensures(read_dib, (dib,), picture),
    ensures
        file is Ok ==> picture is Ok && (picture->Ok_0.pixels@.len() <= 0x2000_0000 ==> decoded_image(
            file->Ok_0@,
        ) == Some((picture->Ok_0.width, picture->Ok_0.height, picture->Ok_0.pixels@))),
        picture is Ok && picture->Ok_0.width > 0 && picture->Ok_0.height > 0
            && picture->Ok_0.pixels@.len() <= 0x2000_0000 ==> file is Ok,
        picture is Err ==> file == Err::<Vec<u8>, PictureError>(
            PictureError::Dib(picture->Err_0),
        ),
{
}

/// A type of picture or text that an application offers is taken, or one that it offers before it; the
/// one that is taken starts like such a type. Texts are served as plain text, and as the two types that
/// applications of old know.
pub proof fn lemma_types_are_told_apart(
    mimes: &[String],
    k: int,
    rest: Seq<char>,
    picture: Option<usize>,
    text: Option<usize>,
    mime: &str,
    served: bool,
)
    requires
        0 <= k < mimes@.len(),
        call_ensures(image_mime, (mimes,), picture),
        call_ensures(text_mime, (mimes,), text),
        call_ensures(serves_text, (mime,), served),
    ensures
        mimes@[k]@ == "image/png"@ + rest || mimes@[k]@ == "image/bmp"@ + rest ==> picture is Some
            && picture->0 <= k,
        mimes@[k]@ == "text/plain"@ + rest || mimes@[k]@ == "UTF8_STRING"@ + rest || mimes@[k]@
            == "STRING"@ + rest ==> text is Some && text->0 <= k,
        picture matches Some(i) ==> i < mimes@.len() && mimes@[i as int]@.len() >= 9
            && mimes@[i as int]@[0] == 'i',
        text matches Some(i) ==> i < mimes@.len() && (mimes@[i as int]@[0] == 't' || mimes@[i as int]@[0]
            == 'U' || mimes@[i as int]@[0] == 'S'),
        mime@ == "text/plain"@ + rest || mime@ == "UTF8_STRING"@ || mime@ == "STRING"@ ==> served,
        served ==> mime@.len() > 0 && (mime@[0] == 't' || mime@[0] == 'U' || mime@[0] == 'S'),
{
    reveal_strlit("image/png");
    reveal_strlit("image/bmp");
    reveal_strlit("text/plain");
    reveal_strlit("text/utf8");
    reveal_strlit("UTF8_STRING");
    reveal_strlit("STRING");
    let name = mimes@[k]@;
    lemma_prefix(name, "image/png"@, rest);
    lemma_prefix(name, "image/bmp"@, rest);
    lemma_prefix(name, "text/plain"@, rest);
    lemma_prefix(name, "text/utf8"@, rest);
    lemma_prefix(name, "UTF8_STRING"@, rest);
    lemma_prefix(name, "STRING"@, rest);
    lemma_prefix(mime@, "text/plain"@, rest);
    if picture is Some {
        let own = mimes@[picture->0 as int]@;
        lemma_prefix(own, "image/png"@, rest);
        lemma_prefix(own, "image/bmp"@, rest);
    } else {
        assert(holds_no_image(mimes@));
    }
    if text is Some {
        let own = mimes@[text->0 as int]@;
        lemma_prefix(own, "text/plain"@, rest);
        lemma_prefix(own, "text/utf8"@, rest);
        lemma_prefix(own, "UTF8_STRING"@, rest);
        lemma_prefix(own, "STRING"@, rest);
    } else {
        assert(holds_no_text(mimes@));
    }
}

proof fn lemma_prefix(whole: Seq<char>, part: Seq<char>, rest: Seq<char>)
    requires
        part.len() > 0,
    ensures
        whole == part + rest ==> has_prefix(whole, part),
        has_prefix(whole, part) ==> whole.len() >= part.len() && whole[0] == part[0],
{
    if whole == part + rest {
        assert(whole.subrange(0, part.len() as int) =~= part);
    }
    if has_prefix(whole, part) {
        assert(whole.subrange(0, part.len() as int)[0] == whole[0]);
    }
}

} // verus!
