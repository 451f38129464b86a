//! Choice of an encoder: the preferred one where it can be had, else the software encoder.

use crate::encode::ffmpeg::{preference_named, FfmpegEncoderPreference};
use crate::encode::software::{buffer_fits, native_refused, OpenH264Encoder};
use crate::encode::{fell_back, EncodeError, EncodeResult, Encoder};
use crate::text::same;
use vstd::prelude::*;

verus! {

/// Bit rate asked of a full-output encoder, and of a hardware tile encoder.
pub const BITRATE_BPS: u32 = 2_000_000;

/// Bit rate asked of a software tile encoder.
pub const TILE_SOFTWARE_BITRATE_BPS: u32 = 500_000;

/// An encoder of either kind.
pub enum AnyEncoder<H> {
    /// One of the FFmpeg library's encoders.
    Ffmpeg(H),
    /// The software encoder.
    OpenH264(OpenH264Encoder),
}

impl<H: Encoder> AnyEncoder<H> {
    /// A software encoder fresh from its constructor.
    pub open spec fn is_fresh_software(&self, width: u32, height: u32, bitrate_bps: u32) -> bool {
        match *self {
            AnyEncoder::OpenH264(e) => {
                &&& e.wf()
                &&& e.width() == width
                &&& e.height() == height
                &&& e.bitrate_bps() == bitrate_bps
                &&& !e.keyframe_pending()
                &&& e.is_started()
            },
            AnyEncoder::Ffmpeg(_) => false,
        }
    }
}

impl<H: Encoder> Encoder for AnyEncoder<H> {
    open spec fn takes(&self, width: u32, height: u32) -> bool {
        match *self {
            AnyEncoder::Ffmpeg(e) => e.takes(width, height),
            AnyEncoder::OpenH264(e) => e.takes(width, height),
        }
    }

    open spec fn resizes(&self, width: u32, height: u32) -> bool {
        match *self {
            AnyEncoder::Ffmpeg(e) => e.resizes(width, height),
            AnyEncoder::OpenH264(e) => e.resizes(width, height),
        }
    }

    open spec fn encoded(
        before: Self,
        after: Self,
        bgra: Seq<u8>,
        width: u32,
        height: u32,
        result: EncodeResult,
    ) -> bool {
        match (before, after) {
            (AnyEncoder::Ffmpeg(b), AnyEncoder::Ffmpeg(a)) => H::encoded(
                b,
                a,
                bgra,
                width,
                height,
                result,
            ),
            (AnyEncoder::OpenH264(b), AnyEncoder::OpenH264(a)) => OpenH264Encoder::encoded(
                b,
                a,
                bgra,
                width,
                height,
                result,
            ),
            _ => false,
        }
    }

    open spec fn keyframe_forced(before: Self, after: Self) -> bool {
        match (before, after) {
            (AnyEncoder::Ffmpeg(b), AnyEncoder::Ffmpeg(a)) => H::keyframe_forced(b, a),
            (AnyEncoder::OpenH264(b), AnyEncoder::OpenH264(a)) => OpenH264Encoder::keyframe_forced(
                b,
                a,
            ),
            _ => false,
        }
    }

    open spec fn resized(
        before: Self,
        after: Self,
        width: u32,
        height: u32,
        result: Result<(), EncodeError>,
    ) -> bool {
        match (before, after) {
            (AnyEncoder::Ffmpeg(b), AnyEncoder::Ffmpeg(a)) => H::resized(
                b,
                a,
                width,
                height,
                result,
            ),
            (AnyEncoder::OpenH264(b), AnyEncoder::OpenH264(a)) => OpenH264Encoder::resized(
                b,
                a,
                width,
                height,
                result,
            ),
            _ => false,
        }
    }

    open spec fn is_name(&self, name: Seq<char>) -> bool {
        match *self {
            AnyEncoder::Ffmpeg(e) => e.is_name(name),
            AnyEncoder::OpenH264(e) => e.is_name(name),
        }
    }

    fn encode(&mut self, bgra: &[u8], width: u32, height: u32) -> (result: EncodeResult) {
        match self {
            AnyEncoder::Ffmpeg(e) => e.encode(bgra, width, height),
            AnyEncoder::OpenH264(e) => e.encode(bgra, width, height),
        }
    }

    /// The encoder inside does what it does with such a frame; the software encoder falls back.
    fn encode_i420(&mut self, i420: &[u8], width: u32, height: u32) -> (result: EncodeResult)
        ensures
            match (*old(self), *final(self)) {
                (AnyEncoder::Ffmpeg(b), AnyEncoder::Ffmpeg(a)) => exists|e: &mut H|
                    {
                        &&& *e == b
                        &&& *final(e) == a
                        &&& #[trigger] call_ensures(H::encode_i420, (e, i420, width, height), result)
                    },
                (AnyEncoder::OpenH264(b), AnyEncoder::OpenH264(a)) => fell_back(
                    b,
                    a,
                    i420@,
                    width,
                    height,
                    result,
                ),
                _ => false,
            },
    {
        match self {
            AnyEncoder::Ffmpeg(e) => e.encode_i420(i420, width, height),
            AnyEncoder::OpenH264(e) => e.encode_i420(i420, width, height),
        }
    }

    fn force_keyframe(&mut self) {
        match self {
            AnyEncoder::Ffmpeg(e) => e.force_keyframe(),
            AnyEncoder::OpenH264(e) => e.force_keyframe(),
        }
    }

    fn resize(&mut self, width: u32, height: u32) -> (result: Result<(), EncodeError>) {
        match self {
            AnyEncoder::Ffmpeg(e) => e.resize(width, height),
            AnyEncoder::OpenH264(e) => e.resize(width, height),
        }
    }

    fn name(&self) -> (r: &str) {
        match self {
            AnyEncoder::Ffmpeg(e) => e.name(),
            AnyEncoder::OpenH264(e) => e.name(),
        }
    }
}

/// `encoder` is what the preference `pref` leads to, given what `ffmpeg` returns: the FFmpeg
/// encoder where it was to be tried and could be had, else the software encoder at
/// `software_bitrate`.
pub open spec fn chosen_encoder<
    H: Encoder,
    F: Fn(u32, u32, u32, FfmpegEncoderPreference) -> Result<H, EncodeError>,
>(
    ffmpeg: F,
    pref: Seq<char>,
    width: u32,
    height: u32,
    software_bitrate: u32,
    encoder: AnyEncoder<H>,
) -> bool {
    match encoder {
        AnyEncoder::Ffmpeg(e) => preferred_made(ffmpeg, pref, width, height, e),
        AnyEncoder::OpenH264(_) => encoder.is_fresh_software(width, height, software_bitrate)
            && software_reached(ffmpeg, pref, width, height),
    }
}

/// An FFmpeg encoder was asked for, and `encoder` was made.
pub open spec fn preferred_made<
    H: Encoder,
    F: Fn(u32, u32, u32, FfmpegEncoderPreference) -> Result<H, EncodeError>,
>(ffmpeg: F, pref: Seq<char>, width: u32, height: u32, encoder: H) -> bool {
    let args = (width, height, BITRATE_BPS, preference_named(pref));
    pref != "openh264"@ && call_ensures(ffmpeg, args, Ok(encoder))
}

/// The software encoder's turn has come: it was asked for, or the FFmpeg encoder failed.
pub open spec fn software_reached<
    H: Encoder,
    F: Fn(u32, u32, u32, FfmpegEncoderPreference) -> Result<H, EncodeError>,
>(ffmpeg: F, pref: Seq<char>, width: u32, height: u32) -> bool {
    let args = (width, height, BITRATE_BPS, preference_named(pref));
    pref == "openh264"@ || exists|e: EncodeError| call_ensures(ffmpeg, args, Err(e))
}

/// The FFmpeg encoder that `pref` names, or none where the software encoder is asked for or the
/// FFmpeg encoder cannot be had.
fn preferred_encoder<
    H: Encoder,
    F: Fn(u32, u32, u32, FfmpegEncoderPreference) -> Result<H, EncodeError>,
>(ffmpeg: &F, pref: &str, width: u32, height: u32) -> (r: Option<H>)
    requires
        forall|w: u32, h: u32, b: u32, p: FfmpegEncoderPreference|
            call_requires(*ffmpeg, (w, h, b, p)),
    ensures
        match r {
            Some(e) => preferred_made(*ffmpeg, pref@, width, height, e),
            None => software_reached(*ffmpeg, pref@, width, height),
        },
{
    if same(pref, "openh264") {
        return None;
    }
    match (*ffmpeg)(width, height, BITRATE_BPS, FfmpegEncoderPreference::named(pref)) {
        Ok(e) => Some(e),
        Err(e) => {
            let ghost args = (width, height, BITRATE_BPS, preference_named(pref@));
            assert(call_ensures(*ffmpeg, args, Err(e)));
            None
        },
    }
}

/// An encoder for one tile: the preferred one, else the software encoder at a quarter of the
/// rate. Fails only where the software encoder cannot be created either.
pub fn create_tile_encoder<
    H: Encoder,
    F: Fn(u32, u32, u32, FfmpegEncoderPreference) -> Result<H, EncodeError>,
>(width: u32, height: u32, pref: &str, ffmpeg: &F) -> (r: Result<AnyEncoder<H>, EncodeError>)
    requires
        buffer_fits(width, height),
        forall|w: u32, h: u32, b: u32, p: FfmpegEncoderPreference|
            call_requires(*ffmpeg, (w, h, b, p)),
    ensures
        match r {
            Ok(e) => chosen_encoder(
                *ffmpeg,
                pref@,
                width,
                height,
                TILE_SOFTWARE_BITRATE_BPS,
                e,
            ),
            Err(e) => {
                &&& e == EncodeError::Create
                &&& software_reached(*ffmpeg, pref@, width, height)
                &&& native_refused(TILE_SOFTWARE_BITRATE_BPS)
            },
        },
{
    match preferred_encoder(ffmpeg, pref, width, height) {
        Some(e) => Ok(AnyEncoder::Ffmpeg(e)),
        None => match OpenH264Encoder::new(width, height, TILE_SOFTWARE_BITRATE_BPS) {
            Ok(e) => Ok(AnyEncoder::OpenH264(e)),
            Err(e) => Err(e),
        },
    }
}

/// An encoder for a whole output: the preferred one, else the software encoder, else none.
pub fn create_encoder<
    H: Encoder,
    F: Fn(u32, u32, u32, FfmpegEncoderPreference) -> Result<H, EncodeError>,
>(width: u32, height: u32, pref: &str, ffmpeg: &F) -> (r: Option<AnyEncoder<H>>)
    requires
        buffer_fits(width, height),
        forall|w: u32, h: u32, b: u32, p: FfmpegEncoderPreference|
            call_requires(*ffmpeg, (w, h, b, p)),
    ensures
        match r {
            Some(e) => chosen_encoder(*ffmpeg, pref@, width, height, BITRATE_BPS, e),
            None => software_reached(*ffmpeg, pref@, width, height) && native_refused(BITRATE_BPS),
        },
{
    match preferred_encoder(ffmpeg, pref, width, height) {
        Some(e) => Some(AnyEncoder::Ffmpeg(e)),
        None => match OpenH264Encoder::new(width, height, BITRATE_BPS) {
            Ok(e) => Some(AnyEncoder::OpenH264(e)),
            Err(_) => None,
        },
    }
}

} // verus!
