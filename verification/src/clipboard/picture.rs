//! Pictures in files.

use crate::clipboard::dib::{
    can_make_dib, dib_fits, dib_of, lemma_dib_reads_back, make_dib, picture_of, read_dib, DibError,
};
use image::{ImageFormat, ImageReader, RgbaImage};
use std::io::Cursor;
use vstd::prelude::*;

verus! {

/// The most bytes of pixels that `image::ImageReader` allocates without other limits.
pub const READ_LIMIT: u64 = 0x2000_0000;

/// Width, height and pixels of a picture in a file, red first, if it can be read.
pub uninterp spec fn decoded_image(file: Seq<u8>) -> Option<(u32, u32, Seq<u8>)>;

/// The PNG file of a picture, if it can be written.
pub uninterp spec fn encoded_png(width: u32, height: u32, pixels: Seq<u8>) -> Option<Seq<u8>>;

/// `image::ImageReader` with a guessed format, then `to_rgba8`: reads a picture. What it gives
/// depends on the file alone, and there are four bytes at least for each pixel.
#[verifier::external_body]
fn decode_image(file: &[u8]) -> (r: Option<(u32, u32, Vec<u8>)>)
    ensures
        match r {
            Some((w, h, pixels)) => decoded_image(file@) == Some((w, h, pixels@)) && 4 * (w * h)
                <= pixels@.len(),
            None => decoded_image(file@) is None,
        },
{
    let reader = ImageReader::new(Cursor::new(file)).with_guessed_format().ok()?;
    let picture = reader.decode().ok()?.to_rgba8();
    let (width, height) = picture.dimensions();
    Some((width, height, picture.into_raw()))
}

/// `image::RgbaImage::write_to` as PNG: writes a picture. What it gives depends on the picture
/// alone, and as PNG loses nothing, the file reads back as the picture if that is within the limit
/// on reading. A picture without pixels is refused. One with pixels is not, within that limit: the
/// other errors are those of the place that is written to, here a list of bytes, which has none.
#[verifier::external_body]
fn encode_png(width: u32, height: u32, pixels: Vec<u8>) -> (r: Option<Vec<u8>>)
    requires
        pixels@.len() == 4 * (width * height),
    ensures
        match r {
            Some(file) => encoded_png(width, height, pixels@) == Some(file@) && (pixels@.len()
                <= READ_LIMIT ==> decoded_image(file@) == Some((width, height, pixels@))),
            None => encoded_png(width, height, pixels@) is None,
        },
        width == 0 || height == 0 ==> r is None,
        width > 0 && height > 0 && pixels@.len() <= READ_LIMIT ==> r is Some,
{
    let picture = RgbaImage::from_raw(width, height, pixels)?;
    let mut file = Cursor::new(Vec::new());
    picture.write_to(&mut file, ImageFormat::Png).ok()?;
    Some(file.into_inner())
}

/// The bitmap of a decoded picture, where it fits.
pub open spec fn dib_of_decoded(decoded: Option<(u32, u32, Seq<u8>)>) -> Option<Seq<u8>> {
    match decoded {
        Some((w, h, pixels)) => if dib_fits(w as int, h as int, pixels) {
            Some(dib_of(w as int, h as int, pixels))
        } else {
            None
        },
        None => None,
    }
}

/// The bitmap of a decoded picture, where it fits.
pub fn decoded_to_dib(decoded: Option<(u32, u32, Vec<u8>)>) -> (r: Option<Vec<u8>>)
    ensures
        ({
            let d = match decoded {
                Some((w, h, pixels)) => Some((w, h, pixels@)),
                None => None,
            };
            match r {
                Some(dib) => dib_of_decoded(d) == Some(dib@),
                None => dib_of_decoded(d) is None,
            }
        }),
{
    match decoded {
        Some((w, h, pixels)) => if can_make_dib(w, h, &pixels) {
            Some(make_dib(w, h, &pixels))
        } else {
            None
        },
        None => None,
    }
}

/// Converts a picture in a file to a bitmap.
pub fn png_to_dib(file: &[u8]) -> (r: Option<Vec<u8>>)
    ensures
        match r {
            Some(dib) => dib_of_decoded(decoded_image(file@)) == Some(dib@),
            None => dib_of_decoded(decoded_image(file@)) is None,
        },
{
    decoded_to_dib(decode_image(file))
}

/// Why a bitmap was not converted.
#[derive(Debug, Clone, Copy, PartialEq, Eq, Structural)]
pub enum PictureError {
    Dib(DibError),
    Encode,
}

/// What converting a bitmap gives.
pub open spec fn png_of_dib(dib: Seq<u8>) -> Result<Seq<u8>, PictureError> {
    match picture_of(dib) {
        Ok((w, h, pixels)) => match encoded_png(w, h, pixels) {
            Some(file) => Ok(file),
            None => Err(PictureError::Encode),
        },
        Err(e) => Err(PictureError::Dib(e)),
    }
}

/// Whether a file reads back as the picture of a bitmap, if that is within the limit on reading.
pub open spec fn reads_back(file: Seq<u8>, dib: Seq<u8>) -> bool {
    match picture_of(dib) {
        Ok((w, h, pixels)) => pixels.len() <= READ_LIMIT ==> decoded_image(file) == Some(
            (w, h, pixels),
        ),
        Err(_) => false,
    }
}

/// Whether a bitmap's picture has pixels, and is within the limit on reading.
pub open spec fn is_writable(dib: Seq<u8>) -> bool {
    picture_of(dib) matches Ok((w, h, pixels)) && w > 0 && h > 0 && pixels.len() <= READ_LIMIT
}

/// Converts a bitmap to PNG, which reads back as the same picture.
pub fn dib_to_png(dib: &[u8]) -> (r: Result<Vec<u8>, PictureError>)
    ensures
        match r {
            Ok(file) => png_of_dib(dib@) == Ok::<Seq<u8>, PictureError>(file@) && reads_back(
                file@,
                dib@,
            ),
            Err(e) => png_of_dib(dib@) == Err::<Seq<u8>, PictureError>(e),
        },
        is_writable(dib@) ==> r is Ok,
        (picture_of(dib@) matches Ok((w, h, _)) && (w == 0 || h == 0)) ==> r
            == Err::<Vec<u8>, PictureError>(PictureError::Encode),
{
    match read_dib(dib) {
        Ok(p) => match encode_png(p.width, p.height, p.pixels) {
            Some(file) => Ok(file),
            None => Err(PictureError::Encode),
        },
        Err(e) => Err(PictureError::Dib(e)),
    }
}

/// A bitmap that was written from a picture, converted to PNG and back, is the same bitmap.
pub proof fn lemma_bitmap_comes_back(w: int, h: int, pixels: Seq<u8>, file: Seq<u8>)
    requires
        0 < w,
        0 < h < 0x8000_0000,
        dib_fits(w, h, pixels),
        pixels.len() == 4 * (w * h),
        pixels.len() <= READ_LIMIT,
        reads_back(file, dib_of(w, h, pixels)),
    ensures
        dib_of_decoded(decoded_image(file)) == Some(dib_of(w, h, pixels)),
{
    lemma_dib_reads_back(w, h, pixels);
}

/// The bitmap of a picture with pixels can be converted to PNG, and what that gives reads back as the
/// same picture, with its size, the order of its rows and channels, and its alpha.
pub proof fn lemma_picture_comes_back(file: Seq<u8>, dib: Seq<u8>, out: Seq<u8>)
    requires
        decoded_image(file) matches Some((w, h, pixels)) && {
            &&& w > 0
            &&& h > 0
            &&& pixels.len() == 4 * (w * h)
            &&& pixels.len() <= READ_LIMIT
        },
        dib_of_decoded(decoded_image(file)) == Some(dib),
    ensures
        is_writable(dib),
        reads_back(out, dib) ==> decoded_image(out) == decoded_image(file),
{
    let (w, h, pixels) = decoded_image(file)->0;
    assert(h < 0x8000_0000) by (nonlinear_arith)
        requires
            w > 0,
            4 * (w * h) <= 0x2000_0000,
    ;
    lemma_dib_reads_back(w as int, h as int, pixels);
}

} // verus!
