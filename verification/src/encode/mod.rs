//! Video encoding: BGRA frames in, H.264 out.

pub mod ffmpeg;
pub mod laws;
pub mod nal;
pub mod planes;
pub mod select;
pub mod software;

use vstd::prelude::*;

verus! {

/// Encoded output from a single frame.
#[derive(Debug)]
pub struct EncodedFrame {
    /// H.264 NAL unit data (Annex B format).
    pub data: Vec<u8>,
    /// Whether this frame is a keyframe (IDR).
    pub is_keyframe: bool,
}

/// Why an encoder did not do what it was asked.
#[derive(Debug, Clone, Copy, PartialEq, Eq, Structural)]
pub enum EncodeError {
    /// The encoder could not be created.
    Create,
    /// The encoder refused the frame.
    Encode,
    /// The encoder does not take this kind of input.
    Unsupported,
}

/// What came of one frame: encoded data, or nothing yet because the encoder keeps the frame.
pub type EncodeResult = Result<Option<EncodedFrame>, EncodeError>;

/// Video encoders that accept BGRA frames and produce H.264. What an encoder does not state of itself
/// is left open.
pub trait Encoder: Send + Sized {
    /// The frame sizes that `encode` takes.
    open spec fn takes(&self, width: u32, height: u32) -> bool {
        true
    }

    /// The sizes that `resize` takes.
    open spec fn resizes(&self, width: u32, height: u32) -> bool {
        true
    }

    /// What `encode` may make of a frame: the encoder before and after it, and the result.
    open spec fn encoded(
        before: Self,
        after: Self,
        bgra: Seq<u8>,
        width: u32,
        height: u32,
        result: EncodeResult,
    ) -> bool {
        true
    }

    /// What a request for a keyframe may make of an encoder.
    open spec fn keyframe_forced(before: Self, after: Self) -> bool {
        true
    }

    /// What a change of size may make of an encoder, and the result.
    open spec fn resized(
        before: Self,
        after: Self,
        width: u32,
        height: u32,
        result: Result<(), EncodeError>,
    ) -> bool {
        true
    }

    /// Whether this is the name of the encoder.
    open spec fn is_name(&self, name: Seq<char>) -> bool {
        true
    }

    /// Encode a single frame. `bgra` is width*height*4 bytes in BGRA format.
    /// Returns encoded H.264 NAL units, or None if the encoder buffered the frame.
    fn encode(&mut self, bgra: &[u8], width: u32, height: u32) -> (result: EncodeResult)
        requires
            old(self).takes(width, height),
            bgra@.len() >= 4 * (width * height),
        ensures
            Self::encoded(*old(self), *final(self), bgra@, width, height, result),
    ;

    /// Encode a frame from raw I420 (YUV420 planar) data.
    /// `i420` is width*height*3/2 bytes: Y plane, then U plane, then V plane.
    /// Default implementation falls back to `encode()` (ignoring that it's not BGRA); bytes that are
    /// too few for that are refused.
    fn encode_i420(&mut self, i420: &[u8], width: u32, height: u32) -> (result: EncodeResult)
        requires
            old(self).takes(width, height),
        default_ensures
            if i420@.len() >= 4 * (width * height) {
                Self::encoded(*old(self), *final(self), i420@, width, height, result)
            } else {
                &&& result == EncodeResult::Err(EncodeError::Unsupported)
                &&& *final(self) == *old(self)
            },
    {
        proof {
            lemma_area_fits(width, height);
        }
        if i420.len() as u128 >= 4 * (width as u128 * height as u128) {
            self.encode(i420, width, height)
        } else {
            Err(EncodeError::Unsupported)
        }
    }

    /// Force a keyframe on the next encode call. The encoder still takes every size that it took.
    fn force_keyframe(&mut self)
        ensures
            Self::keyframe_forced(*old(self), *final(self)),
            forall|width: u32, height: u32|
                old(self).takes(width, height) ==> #[trigger] final(self).takes(width, height),
    ;

    /// Handle a resolution change. Returns Err if the encoder can't resize.
    fn resize(&mut self, width: u32, height: u32) -> (result: Result<(), EncodeError>)
        requires
            old(self).resizes(width, height),
        ensures
            Self::resized(*old(self), *final(self), width, height, result),
    ;

    /// Encoder name for logging.
    fn name(&self) -> (r: &str)
        ensures
            self.is_name(r@),
    ;
}

/// What an encoder without I420 input makes of such a frame: it takes the bytes for BGRA, and refuses
/// them where they are too few.
pub open spec fn fell_back<E: Encoder>(
    before: E,
    after: E,
    i420: Seq<u8>,
    width: u32,
    height: u32,
    result: EncodeResult,
) -> bool {
    if i420.len() >= 4 * (width * height) {
        E::encoded(before, after, i420, width, height, result)
    } else {
        &&& result == EncodeResult::Err(EncodeError::Unsupported)
        &&& after == before
    }
}

pub(crate) proof fn lemma_area_fits(width: u32, height: u32)
    ensures
        0 <= 4 * (width * height) <= u128::MAX,
{
    assert(0 <= width * height <= u32::MAX * u32::MAX) by (nonlinear_arith)
        requires
            0 <= width <= u32::MAX,
            0 <= height <= u32::MAX,
    ;
}

/// The next even number.
pub open spec fn even_up(x: int) -> int {
    x + x % 2
}

} // verus!
