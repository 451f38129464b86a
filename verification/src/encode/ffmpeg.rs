//! What the FFmpeg encoders are asked for, and how pictures get into their frame buffers.

use crate::encode::even_up;
use crate::encode::planes::{lemma_quarter_size, quarter_size};
use crate::text::same;
use vstd::prelude::*;

verus! {

/// Which hardware encoder to attempt, falling back through the list.
#[derive(Debug, Clone, Copy, PartialEq, Eq, Structural)]
pub enum FfmpegEncoderPreference {
    /// Try VAAPI first, then NVENC, then libx264.
    Auto,
    /// Force VAAPI (h264_vaapi).
    Vaapi,
    /// Force NVENC (h264_nvenc).
    Nvenc,
    /// Force software (libx264).
    Software,
}

/// The preference that a configured name stands for.
pub open spec fn preference_named(name: Seq<char>) -> FfmpegEncoderPreference {
    if name == "vaapi"@ {
        FfmpegEncoderPreference::Vaapi
    } else if name == "nvenc"@ {
        FfmpegEncoderPreference::Nvenc
    } else if name == "x264"@ {
        FfmpegEncoderPreference::Software
    } else {
        FfmpegEncoderPreference::Auto
    }
}

impl FfmpegEncoderPreference {
    /// The preference that a configured name stands for; unknown names leave the choice open.
    pub fn named(name: &str) -> (r: Self)
        ensures
            r == preference_named(name@),
    {
        if same(name, "vaapi") {
            FfmpegEncoderPreference::Vaapi
        } else if same(name, "nvenc") {
            FfmpegEncoderPreference::Nvenc
        } else if same(name, "x264") {
            FfmpegEncoderPreference::Software
        } else {
            FfmpegEncoderPreference::Auto
        }
    }

    /// The encoders to try, in order.
    pub open spec fn candidates(&self) -> Seq<H264Codec> {
        match self {
            FfmpegEncoderPreference::Auto => seq![
                H264Codec::Vaapi,
                H264Codec::Nvenc,
                H264Codec::Libx264,
            ],
            FfmpegEncoderPreference::Vaapi => seq![H264Codec::Vaapi],
            FfmpegEncoderPreference::Nvenc => seq![H264Codec::Nvenc],
            FfmpegEncoderPreference::Software => seq![H264Codec::Libx264],
        }
    }

    /// The encoders to try, in order.
    pub fn encoders(&self) -> (r: Vec<H264Codec>)
        ensures
            r@ == self.candidates(),
    {
        let mut r: Vec<H264Codec> = Vec::new();
        match self {
            FfmpegEncoderPreference::Auto => {
                r.push(H264Codec::Vaapi);
                r.push(H264Codec::Nvenc);
                r.push(H264Codec::Libx264);
            },
            FfmpegEncoderPreference::Vaapi => r.push(H264Codec::Vaapi),
            FfmpegEncoderPreference::Nvenc => r.push(H264Codec::Nvenc),
            FfmpegEncoderPreference::Software => r.push(H264Codec::Libx264),
        }
        assert(r@ =~= self.candidates());
        r
    }
}

/// An H.264 encoder of the FFmpeg library.
#[derive(Debug, Clone, Copy, PartialEq, Eq, Structural)]
pub enum H264Codec {
    Vaapi,
    Nvenc,
    Libx264,
}

/// Pixel layout that an encoder takes.
#[derive(Debug, Clone, Copy, PartialEq, Eq, Structural)]
pub enum PixelLayout {
    Nv12,
    Yuv420p,
}

/// Rate control of an encoder, in bits per second and bits.
#[derive(Debug, Clone, Copy, PartialEq, Eq, Structural)]
pub enum RateControl {
    /// A target bit rate.
    Target(u32),
    /// Constant quality with a cap: the largest rate, and the buffer that bounds one frame.
    Capped { max_bit_rate: u32, buffer_bits: u32 },
}

impl H264Codec {
    pub open spec fn library_name(&self) -> Seq<char> {
        match self {
            H264Codec::Vaapi => "h264_vaapi"@,
            H264Codec::Nvenc => "h264_nvenc"@,
            H264Codec::Libx264 => "libx264"@,
        }
    }

    /// Name by which the FFmpeg library finds the encoder.
    pub fn name(&self) -> (r: &'static str)
        ensures
            r@ == self.library_name(),
    {
        match self {
            H264Codec::Vaapi => "h264_vaapi",
            H264Codec::Nvenc => "h264_nvenc",
            H264Codec::Libx264 => "libx264",
        }
    }

    /// VAAPI takes NV12, the others planar YUV.
    pub fn pixel_layout(&self) -> (r: PixelLayout)
        ensures
            r == (if *self == H264Codec::Vaapi {
                PixelLayout::Nv12
            } else {
                PixelLayout::Yuv420p
            }),
    {
        match self {
            H264Codec::Vaapi => PixelLayout::Nv12,
            H264Codec::Nvenc => PixelLayout::Yuv420p,
            H264Codec::Libx264 => PixelLayout::Yuv420p,
        }
    }

    /// libx264 runs at constant quality with at most 10 Mbit/s and 4 Mbit per frame; the
    /// hardware encoders aim at the bit rate asked for.
    pub fn rate_control(&self, bitrate_bps: u32) -> (r: RateControl)
        ensures
            r == (if *self == H264Codec::Libx264 {
                RateControl::Capped { max_bit_rate: 10_000_000, buffer_bits: 4_000_000 }
            } else {
                RateControl::Target(bitrate_bps)
            }),
    {
        match self {
            H264Codec::Libx264 => RateControl::Capped {
                max_bit_rate: 10_000_000,
                buffer_bits: 4_000_000,
            },
            H264Codec::Nvenc => RateControl::Target(bitrate_bps),
            H264Codec::Vaapi => RateControl::Target(bitrate_bps),
        }
    }

    /// Private options of the encoder, by name and value.
    pub open spec fn option_table(&self) -> Seq<(Seq<char>, Seq<char>)> {
        match self {
            H264Codec::Libx264 => seq![
                ("crf"@, "23"@),
                ("preset"@, "ultrafast"@),
                ("tune"@, "zerolatency"@),
                ("forced-idr"@, "1"@),
            ],
            H264Codec::Nvenc => seq![
                ("preset"@, "p1"@),
                ("tune"@, "ull"@),
                ("zerolatency"@, "1"@),
            ],
            H264Codec::Vaapi => seq![("low_power"@, "1"@)],
        }
    }

    /// Private options of the encoder: low latency throughout, and for libx264 a constant
    /// quality of 23 and requested keyframes that are IDR frames.
    pub fn options(&self) -> (r: Vec<(&'static str, &'static str)>)
        ensures
            r@.len() == self.option_table().len(),
            forall|i: int|
                0 <= i < r@.len() ==> (#[trigger] r@[i]).0@ == self.option_table()[i].0
                    && r@[i].1@ == self.option_table()[i].1,
    {
        let mut r: Vec<(&'static str, &'static str)> = Vec::new();
        match self {
            H264Codec::Libx264 => {
                r.push(("crf", "23"));
                r.push(("preset", "ultrafast"));
                r.push(("tune", "zerolatency"));
                r.push(("forced-idr", "1"));
            },
            H264Codec::Nvenc => {
                r.push(("preset", "p1"));
                r.push(("tune", "ull"));
                r.push(("zerolatency", "1"));
            },
            H264Codec::Vaapi => r.push(("low_power", "1")),
        }
        r
    }
}

/// Encoded pictures have even dimensions: round up.
pub fn encoded_size(x: u32) -> (r: u32)
    requires
        x < u32::MAX,
    ensures
        r == even_up(x as int),
{
    x + x % 2
}

/// What is copied of each row: the shorter of the row and the destination's stride.
pub open spec fn copied_len(row_len: int, stride: int) -> int {
    if row_len <= stride {
        row_len
    } else {
        stride
    }
}

/// `after` is `before` with `rows` rows of `src`, from `from` on, written at multiples of
/// `stride`. A row that `src` does not hold in full is left out.
pub open spec fn rows_copied(
    before: Seq<u8>,
    after: Seq<u8>,
    src: Seq<u8>,
    from: int,
    row_len: int,
    stride: int,
    rows: int,
) -> bool {
    &&& after.len() == before.len()
    &&& forall|i: int|
        0 <= i < after.len() ==> #[trigger] after[i] == copied_byte(
            before[i],
            src,
            from,
            row_len,
            stride,
            rows,
            i,
        )
}

/// Byte `i` of a destination whose byte was `kept`.
pub open spec fn copied_byte(
    kept: u8,
    src: Seq<u8>,
    from: int,
    row_len: int,
    stride: int,
    rows: int,
    i: int,
) -> u8 {
    let len = copied_len(row_len, stride);
    let row = i / stride;
    let col = i % stride;
    let start = from + row * row_len;
    if stride > 0 && row < rows && col < len && start + len <= src.len() {
        src[start + col]
    } else {
        kept
    }
}

/// Copies rows of a packed plane into a buffer whose rows start `stride` bytes apart. A row that
/// `src` does not hold in full is skipped.
pub fn copy_rows(
    src: &[u8],
    from: usize,
    row_len: usize,
    rows: usize,
    dst: &mut [u8],
    stride: usize,
)
    requires
        from + rows * row_len + row_len <= usize::MAX,
        rows > 0 ==> (rows - 1) * stride + copied_len(row_len as int, stride as int) <= old(
            dst,
        )@.len(),
    ensures
        rows_copied(
            old(dst)@,
            final(dst)@,
            src@,
            from as int,
            row_len as int,
            stride as int,
            rows as int,
        ),
{
    let ghost before = dst@;
    let len: usize = if row_len <= stride {
        row_len
    } else {
        stride
    };
    if stride == 0 {
        return ;
    }
    assert(dst@.len() == dst.len());
    let mut row: usize = 0;
    let mut start: usize = from;
    let mut target: usize = 0;
    proof {
        assert forall|i: int| 0 <= i < dst@.len() implies #[trigger] dst@[i] == copied_byte(
            before[i],
            src@,
            from as int,
            row_len as int,
            stride as int,
            0,
            i,
        ) by {
            assert(i / stride as int >= 0) by (nonlinear_arith)
                requires
                    i >= 0,
                    stride > 0,
            ;
        }
    }
    while row < rows
        invariant
            stride > 0,
            len == copied_len(row_len as int, stride as int),
            from + rows * row_len + row_len <= usize::MAX,
            rows > 0 ==> (rows - 1) * stride + len <= dst@.len(),
            dst@.len() == before.len() <= usize::MAX,
            row <= rows,
            start == from + row * row_len,
            row < rows ==> target == row * stride,
            rows_copied(
                before,
                dst@,
                src@,
                from as int,
                row_len as int,
                stride as int,
                row as int,
            ),
        decreases rows - row,
    {
        let ghost upper = dst@;
        assert(row * row_len + row_len <= rows * row_len) by (nonlinear_arith)
            requires
                row + 1 <= rows,
        ;
        assert(row * stride <= (rows - 1) * stride) by (nonlinear_arith)
            requires
                row <= rows - 1,
        ;
        if start <= src.len() && src.len() - start >= len {
            let mut k: usize = 0;
            while k < len
                invariant
                    k <= len,
                    start + len <= src@.len(),
                    target + len <= dst@.len(),
                    dst@.len() == upper.len() <= usize::MAX,
                    src@.len() <= usize::MAX,
                    forall|i: int|
                        0 <= i < dst@.len() ==> #[trigger] dst@[i] == if target <= i < target + k {
                            src@[start + (i - target)]
                        } else {
                            upper[i]
                        },
                decreases len - k,
            {
                dst[target + k] = src[start + k];
                k = k + 1;
            }
        }
        proof {
            assert forall|i: int| 0 <= i < dst@.len() implies #[trigger] dst@[i] == copied_byte(
                before[i],
                src@,
                from as int,
                row_len as int,
                stride as int,
                row + 1,
                i,
            ) by {
                let r = i / stride as int;
                let c = i % stride as int;
                vstd::arithmetic::div_mod::lemma_fundamental_div_mod(i, stride as int);
                vstd::arithmetic::div_mod::lemma_mod_bound(i, stride as int);
                assert(stride * r == r * stride) by (nonlinear_arith);
                if r < row {
                    assert(r * stride + stride <= row * stride) by (nonlinear_arith)
                        requires
                            r + 1 <= row,
                            stride > 0,
                    ;
                } else if r > row {
                    assert(row * stride + stride <= r * stride) by (nonlinear_arith)
                        requires
                            row + 1 <= r,
                            stride > 0,
                    ;
                }
                assert(upper[i] == copied_byte(
                    before[i],
                    src@,
                    from as int,
                    row_len as int,
                    stride as int,
                    row as int,
                    i,
                ));
            }
            assert((row + 1) * row_len == row * row_len + row_len) by (nonlinear_arith);
            assert((row + 1) * stride == row * stride + stride) by (nonlinear_arith);
            if row + 1 < rows {
                assert((row + 1) * stride <= (rows - 1) * stride) by (nonlinear_arith)
                    requires
                        row + 1 <= rows - 1,
                ;
            }
        }
        start = start + row_len;
        row = row + 1;
        if row < rows {
            target = target + stride;
        }
    }
}

/// Where a plane of an I420 picture lies, and how much of it goes into a frame.
#[derive(Debug, Clone, Copy, PartialEq, Eq, Structural)]
pub struct PlaneSource {
    /// Offset of the first sample.
    pub from: usize,
    /// Samples per row.
    pub row_len: usize,
    /// Rows that the frame has room for.
    pub rows: usize,
}

/// The planes of a `width` x `height` picture in I420, for a frame of `frame_height` rows.
pub open spec fn i420_plane(width: int, height: int, frame_height: int, plane: int) -> PlaneSource {
    let size = width * height;
    let rows = if plane == 0 {
        height
    } else {
        height / 2
    };
    let room = if plane == 0 {
        frame_height
    } else {
        frame_height / 2
    };
    PlaneSource {
        from: (if plane == 0 {
            0
        } else if plane == 1 {
            size
        } else {
            size + quarter_size(width, height)
        }) as usize,
        row_len: (if plane == 0 {
            width
        } else {
            width / 2
        }) as usize,
        rows: (if rows <= room {
            rows
        } else {
            room
        }) as usize,
    }
}

/// The three planes of an I420 picture, for a frame of `frame_height` rows.
pub fn i420_planes(width: u32, height: u32, frame_height: u32) -> (r: (
    PlaneSource,
    PlaneSource,
    PlaneSource,
))
    requires
        width * height * 3 <= u32::MAX,
    ensures
        r.0 == i420_plane(width as int, height as int, frame_height as int, 0),
        r.1 == i420_plane(width as int, height as int, frame_height as int, 1),
        r.2 == i420_plane(width as int, height as int, frame_height as int, 2),
{
    proof {
        lemma_quarter_size(width as int, height as int);
        assert(width * height >= 0) by (nonlinear_arith);
    }
    let w: usize = width as usize;
    let h: usize = height as usize;
    let room: usize = frame_height as usize;
    let size: usize = w * h;
    let quarter: usize = (w / 2) * (h / 2);
    let chroma_rows: usize = if h / 2 <= room / 2 {
        h / 2
    } else {
        room / 2
    };
    (
        PlaneSource {
            from: 0,
            row_len: w,
            rows: if h <= room {
                h
            } else {
                room
            },
        },
        PlaneSource { from: size, row_len: w / 2, rows: chroma_rows },
        PlaneSource { from: size + quarter, row_len: w / 2, rows: chroma_rows },
    )
}

/// What an encoder keeps between frames besides its codec.
#[derive(Debug, Clone, Copy, PartialEq, Eq, Structural)]
pub struct FrameClock {
    pub width: u32,
    pub height: u32,
    pub frame_index: i64,
    pub force_kf: bool,
}

impl FrameClock {
    pub fn new(width: u32, height: u32) -> (r: Self)
        ensures
            r == (FrameClock { width, height, frame_index: 0, force_kf: false }),
    {
        FrameClock { width, height, frame_index: 0, force_kf: false }
    }

    /// Whether a frame of this size needs the codec to be created anew.
    pub fn needs_resize(&self, width: u32, height: u32) -> (r: bool)
        ensures
            r == (self.width != width || self.height != height),
    {
        width != self.width || height != self.height
    }

    /// After a change of size time starts again, with a keyframe.
    pub fn resized(&mut self, width: u32, height: u32)
        ensures
            *final(self) == (FrameClock { width, height, frame_index: 0, force_kf: true }),
    {
        self.width = width;
        self.height = height;
        self.frame_index = 0;
        self.force_kf = true;
    }

    /// Ask for a keyframe with the next frame.
    pub fn force_keyframe(&mut self)
        ensures
            *final(self) == (FrameClock { force_kf: true, ..*old(self) }),
    {
        self.force_kf = true;
    }

    /// Timestamp of the next frame and whether it is to be a keyframe. A request for a keyframe
    /// counts once.
    pub fn stamp(&mut self) -> (r: (i64, bool))
        requires
            old(self).frame_index < i64::MAX,
        ensures
            r == (old(self).frame_index, old(self).force_kf),
            *final(self) == (FrameClock {
                frame_index: (old(self).frame_index + 1) as i64,
                force_kf: false,
                ..*old(self)
            }),
    {
        let r: (i64, bool) = (self.frame_index, self.force_kf);
        self.frame_index = self.frame_index + 1;
        self.force_kf = false;
        r
    }
}

} // verus!
