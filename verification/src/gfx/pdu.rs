//! Graphics pipeline messages, encoded by the `ironrdp-pdu` crate.

use crate::gfx::capability::{capability_bytes, Capability};
use crate::wire::{bits_i32, le16, le32};
use ironrdp_core::{decode, encode_vec};
use ironrdp_pdu::gcc::{Monitor, MonitorFlags};
use ironrdp_pdu::geometry::InclusiveRectangle;
use ironrdp_pdu::rdp::vc::dvc::gfx::{
    Avc420BitmapStream, CapabilitiesConfirmPdu, Codec1Type, CreateSurfacePdu, DeleteSurfacePdu, EndFramePdu,
    MapSurfaceToOutputPdu, PixelFormat, QuantQuality, ResetGraphicsPdu, ServerPdu, StartFramePdu, Timestamp, WireToSurface1Pdu,
};
use vstd::prelude::*;

verus! {

/// Pixel format of a surface.
#[derive(Debug, Clone, Copy, PartialEq, Eq, Structural)]
pub enum SurfaceFormat {
    XRgb,
    ARgb,
}

/// Codec of a picture.
#[derive(Debug, Clone, Copy, PartialEq, Eq, Structural)]
pub enum SurfaceCodec {
    Avc420,
    Avc444v2,
}

/// A rectangle whose right and bottom edges belong to it.
#[derive(Debug, Clone, Copy, PartialEq, Eq, Structural)]
pub struct SurfaceRect {
    pub left: u16,
    pub top: u16,
    pub right: u16,
    pub bottom: u16,
}

/// A monitor of the client's desktop. The right and bottom edges belong to it.
#[derive(Debug, Clone, Copy, PartialEq, Eq, Structural)]
pub struct SurfaceMonitor {
    pub left: i32,
    pub top: i32,
    pub right: i32,
    pub bottom: i32,
    pub flags: u32,
}

/// Flag of the primary monitor.
pub const MONITOR_PRIMARY: u32 = 1;

/// Time of day at which a frame starts.
#[derive(Debug, Clone, Copy, PartialEq, Eq, Structural)]
pub struct FrameTime {
    pub milliseconds: u16,
    pub seconds: u8,
    pub minutes: u8,
    pub hours: u16,
}

/// How strongly a region is quantized, and its quality.
#[derive(Debug, Clone, Copy, PartialEq, Eq, Structural)]
pub struct RegionQuality {
    pub quantization: u8,
    pub progressive: bool,
    pub quality: u8,
}

/// A message: its type, no flags, its whole length, and its fields.
pub open spec fn message(kind: int, fields: Seq<u8>) -> Seq<u8> {
    le16(kind) + le16(0) + le32(8 + fields.len() as int) + fields
}

pub open spec fn format_byte(format: SurfaceFormat) -> u8 {
    match format {
        SurfaceFormat::XRgb => 0x20,
        SurfaceFormat::ARgb => 0x21,
    }
}

pub open spec fn codec_number(codec: SurfaceCodec) -> int {
    match codec {
        SurfaceCodec::Avc420 => 0xb,
        SurfaceCodec::Avc444v2 => 0xf,
    }
}

pub open spec fn rect_bytes(rect: SurfaceRect) -> Seq<u8> {
    le16(rect.left as int) + le16(rect.top as int) + le16(rect.right as int) + le16(
        rect.bottom as int,
    )
}

pub open spec fn monitor_bytes(monitor: SurfaceMonitor) -> Seq<u8> {
    le32(bits_i32(monitor.left as int)) + le32(bits_i32(monitor.top as int)) + le32(
        bits_i32(monitor.right as int),
    ) + le32(bits_i32(monitor.bottom as int)) + le32(monitor.flags as int)
}

pub open spec fn zeros(n: nat) -> Seq<u8> {
    Seq::new(n, |i: int| 0u8)
}

impl FrameTime {
    /// Each part fits in the bits that it gets.
    pub open spec fn fits(&self) -> bool {
        &&& self.milliseconds < 1024
        &&& self.seconds < 64
        &&& self.minutes < 64
        &&& self.hours < 1024
    }

    /// Ten bits of milliseconds, six of seconds, six of minutes and ten of hours.
    pub open spec fn packed(&self) -> int {
        self.milliseconds + 0x400 * self.seconds + 0x1_0000 * self.minutes + 0x40_0000 * self.hours
    }
}

pub open spec fn start_frame_bytes(time: FrameTime, frame_id: u32) -> Seq<u8> {
    message(0xb, le32(time.packed()) + le32(frame_id as int))
}

pub open spec fn end_frame_bytes(frame_id: u32) -> Seq<u8> {
    message(0xc, le32(frame_id as int))
}

pub open spec fn create_surface_bytes(
    surface_id: u16,
    width: u16,
    height: u16,
    format: SurfaceFormat,
) -> Seq<u8> {
    message(
        0x9,
        le16(surface_id as int) + le16(width as int) + le16(height as int) + seq![
            format_byte(format),
        ],
    )
}

pub open spec fn delete_surface_bytes(surface_id: u16) -> Seq<u8> {
    message(0xa, le16(surface_id as int))
}

/// The message is padded to 340 bytes.
pub open spec fn reset_graphics_bytes(width: u32, height: u32, monitor: SurfaceMonitor) -> Seq<u8> {
    message(
        0xe,
        le32(width as int) + le32(height as int) + le32(1) + monitor_bytes(monitor) + zeros(300),
    )
}

pub open spec fn map_surface_bytes(surface_id: u16, x: u32, y: u32) -> Seq<u8> {
    message(0xf, le16(surface_id as int) + le16(0) + le32(x as int) + le32(y as int))
}

pub open spec fn wire_to_surface_bytes(
    surface_id: u16,
    codec: SurfaceCodec,
    format: SurfaceFormat,
    rect: SurfaceRect,
    bitmap: Seq<u8>,
) -> Seq<u8> {
    message(
        0x1,
        le16(surface_id as int) + le16(codec_number(codec)) + seq![format_byte(format)]
            + rect_bytes(rect) + le32(bitmap.len() as int) + bitmap,
    )
}

/// One region, its quantization and quality, and the data.
pub open spec fn avc420_bytes(rect: SurfaceRect, quality: RegionQuality, data: Seq<u8>) -> Seq<u8> {
    le32(1) + rect_bytes(rect) + seq![
        (quality.quantization + if quality.progressive {
            128int
        } else {
            0int
        }) as u8,
        quality.quality,
    ] + data
}

pub open spec fn capabilities_confirm_bytes(capability: Capability) -> Seq<u8> {
    message(0x13, capability_bytes(capability))
}

/// `ironrdp_core::encode_vec` on a `StartFramePdu`: the header, the packed time and the frame
/// number. Packing asserts that each part of the time fits. The sizes are fixed, so it does not
/// fail.
#[verifier::external_body]
pub(crate) fn encode_start_frame(time: FrameTime, frame_id: u32) -> (r: Option<Vec<u8>>)
    requires
        time.fits(),
    ensures
        r is Some,
        r->0@ == start_frame_bytes(time, frame_id),
{
    let FrameTime { milliseconds, seconds, minutes, hours } = time;
    let timestamp = Timestamp { milliseconds, seconds, minutes, hours };
    encode_vec(&ServerPdu::StartFrame(StartFramePdu { timestamp, frame_id })).ok()
}

/// `ironrdp_core::encode_vec` on an `EndFramePdu`: the header and the frame number. The sizes are
/// fixed, so it does not fail.
#[verifier::external_body]
pub(crate) fn encode_end_frame(frame_id: u32) -> (r: Option<Vec<u8>>)
    ensures
        r is Some,
        r->0@ == end_frame_bytes(frame_id),
{
    encode_vec(&ServerPdu::EndFrame(EndFramePdu { frame_id })).ok()
}

/// `ironrdp_core::encode_vec` on a `CreateSurfacePdu`: the header, the surface number, its size
/// and its pixel format. The sizes are fixed, so it does not fail.
#[verifier::external_body]
pub(crate) fn encode_create_surface(
    surface_id: u16,
    width: u16,
    height: u16,
    format: SurfaceFormat,
) -> (r: Option<Vec<u8>>)
    ensures
        r is Some,
        r->0@ == create_surface_bytes(surface_id, width, height, format),
{
    let pixel_format = match format {
        SurfaceFormat::XRgb => PixelFormat::XRgb,
        SurfaceFormat::ARgb => PixelFormat::ARgb,
    };
    let pdu = CreateSurfacePdu { surface_id, width, height, pixel_format };
    encode_vec(&ServerPdu::CreateSurface(pdu)).ok()
}

/// `ironrdp_core::encode_vec` on a `DeleteSurfacePdu`: the header and the surface number. The
/// sizes are fixed, so it does not fail.
#[verifier::external_body]
pub(crate) fn encode_delete_surface(surface_id: u16) -> (r: Option<Vec<u8>>)
    ensures
        r is Some,
        r->0@ == delete_surface_bytes(surface_id),
{
    encode_vec(&ServerPdu::DeleteSurface(DeleteSurfacePdu { surface_id })).ok()
}

/// `ironrdp_core::encode_vec` on a `ResetGraphicsPdu` with one monitor: the header, the desktop
/// size, the monitor count, the monitor, and zeros up to the fixed size of the message.
#[verifier::external_body]
pub(crate) fn encode_reset_graphics(width: u32, height: u32, monitor: SurfaceMonitor) -> (r: Option<
    Vec<u8>,
>)
    ensures
        r is Some,
        r->0@ == reset_graphics_bytes(width, height, monitor),
{
    let SurfaceMonitor { left, top, right, bottom, flags } = monitor;
    let flags = MonitorFlags::from_bits_retain(flags);
    let monitors = vec![Monitor { left, top, right, bottom, flags }];
    encode_vec(&ServerPdu::ResetGraphics(ResetGraphicsPdu { width, height, monitors })).ok()
}

/// `ironrdp_core::encode_vec` on a `MapSurfaceToOutputPdu`: the header, the surface number, two
/// reserved bytes and the origin. The sizes are fixed, so it does not fail.
#[verifier::external_body]
pub(crate) fn encode_map_surface(surface_id: u16, x: u32, y: u32) -> (r: Option<Vec<u8>>)
    ensures
        r is Some,
        r->0@ == map_surface_bytes(surface_id, x, y),
{
    let pdu = MapSurfaceToOutputPdu { surface_id, output_origin_x: x, output_origin_y: y };
    encode_vec(&ServerPdu::MapSurfaceToOutput(pdu)).ok()
}

/// `ironrdp_core::encode_vec` on a `WireToSurface1Pdu`: the header, the surface number, codec,
/// pixel format and rectangle, and the bitmap behind its length. It fails exactly where the length
/// of the whole message does not fit in 32 bits.
#[verifier::external_body]
pub(crate) fn encode_wire_to_surface(
    surface_id: u16,
    codec: SurfaceCodec,
    format: SurfaceFormat,
    rect: SurfaceRect,
    bitmap_data: Vec<u8>,
) -> (r: Option<Vec<u8>>)
    ensures
        match r {
            Some(v) => v@ == wire_to_surface_bytes(
                surface_id,
                codec,
                format,
                rect,
                bitmap_data@,
            ) && v@.len() <= u32::MAX,
            None => wire_to_surface_bytes(
                surface_id,
                codec,
                format,
                rect,
                bitmap_data@,
            ).len() > u32::MAX,
        },
{
    let codec_id = match codec {
        SurfaceCodec::Avc420 => Codec1Type::Avc420,
        SurfaceCodec::Avc444v2 => Codec1Type::Avc444v2,
    };
    let pixel_format = match format {
        SurfaceFormat::XRgb => PixelFormat::XRgb,
        SurfaceFormat::ARgb => PixelFormat::ARgb,
    };
    let SurfaceRect { left, top, right, bottom } = rect;
    let destination_rectangle = InclusiveRectangle { left, top, right, bottom };
    let pdu = WireToSurface1Pdu { surface_id, codec_id, pixel_format, destination_rectangle, bitmap_data };
    encode_vec(&ServerPdu::WireToSurface1(pdu)).ok()
}

/// `ironrdp_core::encode_vec` on an `Avc420BitmapStream` with one region: the region count, the
/// region, the packed quantization, the quality, and the data. The quantization takes six bits.
#[verifier::external_body]
pub(crate) fn encode_avc420(rect: SurfaceRect, quality: RegionQuality, data: &[u8]) -> (r: Option<
    Vec<u8>,
>)
    requires
        quality.quantization < 64,
    ensures
        r is Some,
        r->0@ == avc420_bytes(rect, quality, data@),
{
    let SurfaceRect { left, top, right, bottom } = rect;
    let value = QuantQuality {
        quantization_parameter: quality.quantization,
        progressive: quality.progressive,
        quality: quality.quality,
    };
    let rectangles = vec![InclusiveRectangle { left, top, right, bottom }];
    encode_vec(&Avc420BitmapStream { rectangles, quant_qual_vals: vec![value], data }).ok()
}

/// `ironrdp_core::decode` of a capability set and `ironrdp_core::encode_vec` on the
/// `CapabilitiesConfirmPdu` that holds it. A set of a known version without unknown flags comes
/// through unchanged, so the message is the header and the same bytes.
#[verifier::external_body]
pub(crate) fn encode_capabilities_confirm(capability: Capability, bytes: &[u8]) -> (r: Option<
    Vec<u8>,
>)
    requires
        capability.wf(),
        bytes@ == capability_bytes(capability),
    ensures
        r is Some,
        r->0@ == capabilities_confirm_bytes(capability),
{
    let set = decode(bytes).ok()?;
    encode_vec(&ServerPdu::CapabilitiesConfirm(CapabilitiesConfirmPdu(set))).ok()
}

} // verus!
