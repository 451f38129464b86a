//! The OpenH264 software encoder.

use crate::encode::nal::{contains_idr, has_idr_nal};
use crate::encode::planes::{bgra_to_i420, i420_chroma, i420_luma, lemma_quarter_size, quarter_size};
use crate::encode::{lemma_area_fits, EncodeError, EncodeResult, EncodedFrame, Encoder};
use openh264::encoder::{Encoder as H264Encoder, EncoderConfig};
use openh264::formats::YUVSlices;
use openh264::OpenH264API;
use vstd::prelude::*;
use vstd::slice::slice_subrange;

verus! {

/// `openh264::encoder::Encoder`, whose state stays inside the native library.
#[verifier::external_type_specification]
#[verifier::external_body]
pub struct ExNativeEncoder(H264Encoder);

/// `openh264::Error`, carried only to be told from success.
#[verifier::external_type_specification]
#[verifier::external_body]
pub struct ExNativeError(openh264::Error);

/// Calls `openh264::encoder::Encoder::with_api_config` with the bundled library and a default
/// configuration whose bit rate is `bitrate_bps`. Nothing is claimed of the result: creation
/// allocates in the native library, which may refuse.
#[verifier::external_body]
fn native_encoder(bitrate_bps: u32) -> Result<H264Encoder, openh264::Error> {
    let config = EncoderConfig::new().set_bitrate_bps(bitrate_bps);
    H264Encoder::with_api_config(OpenH264API::from_source(), config)
}

/// Calls `openh264::encoder::Encoder::force_intra_frame`, which asks the native library for an
/// intra frame next, and gives the encoder back. Nothing is claimed of its hidden state.
#[verifier::external_body]
fn native_force_intra(encoder: H264Encoder) -> H264Encoder {
    let mut encoder = encoder;
    encoder.force_intra_frame();
    encoder
}

/// Calls `openh264::encoder::Encoder::encode` on three planes and collects the bitstream with
/// `write_vec`; gives the encoder back. `YUVSlices::new` asserts the plane sizes, which the first
/// clauses give. Of odd sizes the native library reads no last row or column. Nothing is claimed of
/// the bytes: they rest on the frames before this one and on how many threads the native library
/// starts.
#[verifier::external_body]
fn native_encode(
    encoder: H264Encoder,
    y: &[u8],
    u: &[u8],
    v: &[u8],
    w: usize,
    h: usize,
) -> (H264Encoder, Result<Vec<u8>, openh264::Error>)
    requires
        y@.len() == w * h,
        u@.len() == quarter_size(w as int, h as int),
        v@.len() == quarter_size(w as int, h as int),
        w <= i32::MAX,
        h <= i32::MAX,
{
    let source = YUVSlices::new((y, u, v), (w, h), (w, w / 2, w / 2));
    let mut encoder = encoder;
    let mut data = Vec::new();
    let outcome = match encoder.encode(&source) {
        Ok(stream) => Ok(stream.write_vec(&mut data)),
        Err(e) => Err(e),
    };
    (encoder, outcome.map(|_| data))
}

/// The native library was asked for an encoder of this bit rate and refused.
pub closed spec fn native_refused(bitrate_bps: u32) -> bool {
    exists|e: openh264::Error| #[trigger]
        call_ensures(native_encoder, (bitrate_bps,), Err::<H264Encoder, openh264::Error>(e))
}

/// The native library was asked for an encoder of this bit rate and made this one.
pub closed spec fn native_made(bitrate_bps: u32, encoder: H264Encoder) -> bool {
    call_ensures(native_encoder, (bitrate_bps,), Ok::<H264Encoder, openh264::Error>(encoder))
}

/// A native encoder was asked to make the next frame a keyframe.
pub closed spec fn intra_forced(before: H264Encoder, after: H264Encoder) -> bool {
    call_ensures(native_force_intra, (before,), after)
}

/// A native encoder was handed the three planes of a picture, and gave this.
pub closed spec fn planes_encoded(
    before: H264Encoder,
    after: H264Encoder,
    picture: Seq<u8>,
    width: int,
    height: int,
    r: Result<Vec<u8>, openh264::Error>,
) -> bool {
    let luma_end = width * height;
    let quarter = quarter_size(width, height);
    exists|y: &[u8], u: &[u8], v: &[u8], w: usize, h: usize|
        {
            &&& w == width
            &&& h == height
            &&& y@ == picture.subrange(0, luma_end)
            &&& u@ == picture.subrange(luma_end, luma_end + quarter)
            &&& v@ == picture.subrange(luma_end + quarter, luma_end + 2 * quarter)
            &&& #[trigger] call_ensures(native_encode, (before, y, u, v, w, h), (after, r))
        }
}

/// A native encoder was handed a picture, and before that, where a keyframe is due, the request for
/// one.
pub open spec fn picture_encoded(
    before: H264Encoder,
    after: H264Encoder,
    keyframe_due: bool,
    picture: Seq<u8>,
    width: int,
    height: int,
    r: Result<Vec<u8>, openh264::Error>,
) -> bool {
    exists|ready: H264Encoder|
        {
            &&& if keyframe_due {
                intra_forced(before, ready)
            } else {
                ready == before
            }
            &&& #[trigger] planes_encoded(ready, after, picture, width, height, r)
        }
}

/// What is made of what the native library gave: nothing of an empty bitstream, else a frame, which
/// is a keyframe exactly where the data holds an IDR unit.
pub open spec fn is_outcome(r: Result<Vec<u8>, openh264::Error>, result: EncodeResult) -> bool {
    match r {
        Ok(data) => match result {
            Ok(Some(f)) => {
                &&& data@.len() > 0
                &&& f.data == data
                &&& f.is_keyframe == contains_idr(data@)
            },
            Ok(None) => data@.len() == 0,
            Err(_) => false,
        },
        Err(_) => result == EncodeResult::Err(EncodeError::Encode),
    }
}

pub struct OpenH264Encoder {
    /// There is always one between calls.
    encoder: Option<H264Encoder>,
    width: u32,
    height: u32,
    force_kf: bool,
    yuv_buf: Vec<u8>,
    bitrate_bps: u32,
}

/// Picture sizes whose buffer size is computed without overflow.
pub open spec fn buffer_fits(width: u32, height: u32) -> bool {
    &&& width * height * 3 <= u32::MAX
    &&& width <= i32::MAX
    &&& height <= i32::MAX
}

/// Size of an I420 buffer.
pub open spec fn buffer_size(width: u32, height: u32) -> int {
    (width * height * 3) / 2
}

/// The buffer holds the picture in I420.
pub open spec fn holds_i420(yuv: Seq<u8>, bgra: Seq<u8>, width: u32, height: u32) -> bool {
    &&& yuv.len() == buffer_size(width, height)
    &&& i420_luma(yuv, bgra, width * height)
    &&& i420_chroma(
        yuv,
        bgra,
        width as int,
        height as int,
        quarter_size(width as int, height as int),
    )
}

/// What an encoder hands out for a finished bitstream: nothing for an empty one.
pub fn frame_of_bitstream(data: Vec<u8>) -> (frame: Option<EncodedFrame>)
    ensures
        match frame {
            Some(f) => data@.len() > 0 && f.data == data && f.is_keyframe == contains_idr(data@),
            None => data@.len() == 0,
        },
{
    if data.is_empty() {
        return None;
    }
    let is_keyframe = has_idr_nal(&data);
    Some(EncodedFrame { data, is_keyframe })
}

impl OpenH264Encoder {
    pub closed spec fn width(&self) -> u32 {
        self.width
    }

    pub closed spec fn height(&self) -> u32 {
        self.height
    }

    pub closed spec fn bitrate_bps(&self) -> u32 {
        self.bitrate_bps
    }

    /// A keyframe was asked for and has not been passed on yet.
    pub closed spec fn keyframe_pending(&self) -> bool {
        self.force_kf
    }

    /// The native encoder is as the library made it, for the bit rate.
    pub open spec fn is_started(&self) -> bool {
        native_made(self.bitrate_bps(), self.native())
    }

    /// The native encoder.
    pub closed spec fn native(&self) -> H264Encoder {
        self.encoder->0
    }

    /// There is a native encoder.
    pub closed spec fn has_native(&self) -> bool {
        self.encoder is Some
    }

    /// The I420 picture that the encoder was last given.
    pub closed spec fn picture(&self) -> Seq<u8> {
        self.yuv_buf@
    }

    /// There is a native encoder, and the picture buffer has the size that the dimensions ask for.
    pub open spec fn wf(&self) -> bool {
        &&& self.has_native()
        &&& buffer_fits(self.width(), self.height())
        &&& self.picture().len() == buffer_size(self.width(), self.height())
    }

    /// Whether `encode` takes pictures of this size.
    pub fn can_take(&self, width: u32, height: u32) -> (r: bool)
        requires
            self.wf(),
        ensures
            r == self.takes(width, height),
    {
        assert(0 <= width * height <= u32::MAX * u32::MAX) by (nonlinear_arith)
            requires
                0 <= width <= u32::MAX,
                0 <= height <= u32::MAX,
        ;
        let area: u64 = width as u64 * height as u64;
        area <= u32::MAX as u64 / 3 && width <= i32::MAX as u32 && height <= i32::MAX as u32
    }

    /// An encoder for pictures of the given size. Fails only where the native library does.
    pub fn new(width: u32, height: u32, bitrate_bps: u32) -> (r: Result<Self, EncodeError>)
        requires
            buffer_fits(width, height),
        ensures
            match r {
                Ok(e) => {
                    &&& e.wf()
                    &&& e.width() == width
                    &&& e.height() == height
                    &&& e.bitrate_bps() == bitrate_bps
                    &&& !e.keyframe_pending()
                    &&& e.is_started()
                },
                Err(e) => e == EncodeError::Create && native_refused(bitrate_bps),
            },
    {
        match native_encoder(bitrate_bps) {
            Err(e) => {
                assert(native_refused(bitrate_bps)) by {
                    assert(call_ensures(
                        native_encoder,
                        (bitrate_bps,),
                        Err::<H264Encoder, openh264::Error>(e),
                    ));
                }
                Err(EncodeError::Create)
            },
            Ok(encoder) => {
                assert(width * height >= 0) by (nonlinear_arith);
                let size: usize = (width * height * 3 / 2) as usize;
                Ok(
                    OpenH264Encoder {
                        encoder: Some(encoder),
                        width,
                        height,
                        force_kf: false,
                        yuv_buf: vec![0u8; size],
                        bitrate_bps,
                    },
                )
            },
        }
    }
}

impl Encoder for OpenH264Encoder {
    open spec fn takes(&self, width: u32, height: u32) -> bool {
        &&& self.wf()
        &&& buffer_fits(width, height)
    }

    open spec fn resizes(&self, width: u32, height: u32) -> bool {
        &&& self.wf()
        &&& buffer_fits(width, height)
    }

    /// The picture is converted and handed to the native encoder, a pending keyframe request before
    /// it, unless a change of size fails; after one the encoder is a new one. Every frame that comes out holds the data that
    /// the library gave, and is a keyframe exactly where the data holds an IDR unit.
    open spec fn encoded(
        before: Self,
        after: Self,
        bgra: Seq<u8>,
        width: u32,
        height: u32,
        result: EncodeResult,
    ) -> bool {
        let resized = before.width() != width || before.height() != height;
        &&& after.wf()
        &&& after.bitrate_bps() == before.bitrate_bps()
        &&& if result == EncodeResult::Err(EncodeError::Create) {
            &&& resized
            &&& native_refused(before.bitrate_bps())
            &&& after == before
        } else {
            &&& exists|start: H264Encoder, r: Result<Vec<u8>, openh264::Error>|
                {
                    &&& if resized {
                        native_made(before.bitrate_bps(), start)
                    } else {
                        start == before.native()
                    }
                    &&& #[trigger] picture_encoded(
                        start,
                        after.native(),
                        before.keyframe_pending(),
                        after.picture(),
                        width as int,
                        height as int,
                        r,
                    )
                    &&& is_outcome(r, result)
                }
            &&& after.width() == width
            &&& after.height() == height
            &&& !after.keyframe_pending()
            &&& holds_i420(after.picture(), bgra, width, height)
        }
    }

    open spec fn keyframe_forced(before: Self, after: Self) -> bool {
        &&& after.keyframe_pending()
        &&& after.width() == before.width()
        &&& after.height() == before.height()
        &&& after.bitrate_bps() == before.bitrate_bps()
        &&& after.picture() == before.picture()
        &&& after.has_native() == before.has_native()
        &&& after.native() == before.native()
    }

    /// The encoder takes the new size and keeps a request for a keyframe, unless the native library
    /// fails; then it stays as it was.
    open spec fn resized(
        before: Self,
        after: Self,
        width: u32,
        height: u32,
        result: Result<(), EncodeError>,
    ) -> bool {
        match result {
            Ok(_) => {
                &&& after.wf()
                &&& after.width() == width
                &&& after.height() == height
                &&& after.bitrate_bps() == before.bitrate_bps()
                &&& after.keyframe_pending() == before.keyframe_pending()
                &&& after.is_started()
            },
            Err(e) => {
                &&& e == EncodeError::Create
                &&& native_refused(before.bitrate_bps())
                &&& after == before
            },
        }
    }

    open spec fn is_name(&self, name: Seq<char>) -> bool {
        name == "openh264"@
    }

    fn encode(&mut self, bgra: &[u8], width: u32, height: u32) -> (result: EncodeResult) {
        if width != self.width || height != self.height {
            match self.resize(width, height) {
                Err(_) => {
                    return Err(EncodeError::Create);
                },
                Ok(()) => {},
            }
        }
        let w: usize = width as usize;
        let h: usize = height as usize;
        proof {
            lemma_quarter_size(width as int, height as int);
            assert(width * height >= 0) by (nonlinear_arith);
        }
        let y_size: usize = w * h;
        let uv_size: usize = (w / 2) * (h / 2);
        bgra_to_i420(bgra, width, height, &mut self.yuv_buf);
        let force: bool = self.force_kf;
        self.force_kf = false;
        let native: H264Encoder = match self.encoder.take() {
            Some(native) => native,
            None => {
                return Err(EncodeError::Encode);
            },
        };
        let ghost start = native;
        let native: H264Encoder = if force {
            native_force_intra(native)
        } else {
            native
        };
        let ghost ready = native;
        let (native, outcome) = native_encode(
            native,
            slice_subrange(&self.yuv_buf, 0, y_size),
            slice_subrange(&self.yuv_buf, y_size, y_size + uv_size),
            slice_subrange(&self.yuv_buf, y_size + uv_size, y_size + 2 * uv_size),
            w,
            h,
        );
        self.encoder = Some(native);
        let ghost given = outcome;
        let result: EncodeResult = match outcome {
            Err(_) => Err(EncodeError::Encode),
            Ok(data) => Ok(frame_of_bitstream(data)),
        };
        proof {
            assert(planes_encoded(
                ready,
                native,
                self.picture(),
                width as int,
                height as int,
                given,
            ));
            assert(picture_encoded(
                start,
                self.native(),
                old(self).keyframe_pending(),
                self.picture(),
                width as int,
                height as int,
                given,
            ));
            assert(is_outcome(given, result));
        }
        result
    }

    /// The bytes are taken for BGRA, and refused where they are too few.
    fn encode_i420(&mut self, i420: &[u8], width: u32, height: u32) -> (result: EncodeResult)
        ensures
            if i420@.len() >= 4 * (width * height) {
                Self::encoded(*old(self), *final(self), i420@, width, height, result)
            } else {
                &&& result == EncodeResult::Err(EncodeError::Unsupported)
                &&& *final(self) == *old(self)
            },
    {
        proof {
            lemma_area_fits(width, height);
        }
        if i420.len() as u128 >= 4 * (width as u128 * height as u128) {
            self.encode(i420, width, height)
        } else {
            Err(EncodeError::Unsupported)
        }
    }

    fn force_keyframe(&mut self) {
        self.force_kf = true;
    }

    /// The native encoder is created anew, to start from a clean state.
    fn resize(&mut self, width: u32, height: u32) -> (r: Result<(), EncodeError>) {
        match native_encoder(self.bitrate_bps) {
            Err(e) => {
                assert(native_refused(self.bitrate_bps)) by {
                    assert(call_ensures(
                        native_encoder,
                        (self.bitrate_bps,),
                        Err::<H264Encoder, openh264::Error>(e),
                    ));
                }
                Err(EncodeError::Create)
            },
            Ok(encoder) => {
                assert(width * height >= 0) by (nonlinear_arith);
                self.encoder = Some(encoder);
                self.width = width;
                self.height = height;
                self.yuv_buf.resize((width * height * 3 / 2) as usize, 0);
                Ok(())
            },
        }
    }

    fn name(&self) -> (r: &str) {
        "openh264"
    }
}

} // verus!
