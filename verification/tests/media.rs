use desktopinator::adaptive::{extract_tile, rects_overlap, TileGrid};
use desktopinator::audio::{negotiate, supported_formats, Chunker};
use desktopinator::cursors::{
    cursor_icon_to_name, cursor_names, cursor_size, CursorCache, CursorIcon,
};
use desktopinator::encode::ffmpeg::{
    copy_rows, encoded_size, i420_planes, FfmpegEncoderPreference, FrameClock, H264Codec,
    PixelLayout, RateControl,
};
use desktopinator::encode::nal::has_idr_nal;
use desktopinator::encode::planes::{
    bgra_to_i420, bgra_to_yuv444, pack_avc444v2_chroma, yuv444_to_i420,
};
use desktopinator::encode::select::{create_encoder, create_tile_encoder, AnyEncoder};
use desktopinator::encode::software::{frame_of_bitstream, OpenH264Encoder};
use desktopinator::encode::{EncodeError, EncodeResult, Encoder};
use desktopinator::tiling::Rect;

fn no_ffmpeg(
    _width: u32,
    _height: u32,
    _bitrate: u32,
    _preference: FfmpegEncoderPreference,
) -> Result<OpenH264Encoder, EncodeError> {
    Err(EncodeError::Create)
}

#[test]
fn colours_convert_exactly() {
    // Blue, green, red, alpha.
    let red = [0u8, 0, 255, 255];
    let (mut y, mut u, mut v) = ([0u8; 4], [0u8; 4], [0u8; 4]);
    bgra_to_yuv444(&red.repeat(4), 2, 2, &mut y, &mut u, &mut v);
    assert_eq!((y[0], u[0], v[0]), (82, 90, 240));
    let mut planar = [0u8; 6];
    yuv444_to_i420(&y, &u, &v, 2, 2, &mut planar);
    assert_eq!(planar, [82, 82, 82, 82, 90, 240]);
    let mut direct = [0u8; 6];
    bgra_to_i420(&red.repeat(4), 2, 2, &mut direct);
    assert_eq!(direct, planar);
}

#[test]
fn grey_is_neutral() {
    for level in [0u8, 1, 100, 254, 255] {
        let mut yuv = [0u8; 6];
        bgra_to_i420(&[level, level, level, 255].repeat(4), 2, 2, &mut yuv);
        assert_eq!(yuv[4..], [128, 128]);
    }
}

#[test]
fn chroma_is_packed() {
    let u: Vec<u8> = (0..16).collect();
    let v: Vec<u8> = (100..116).collect();
    let mut out = [0u8; 24];
    pack_avc444v2_chroma(&u, &v, 4, 4, &mut out);
    assert_eq!(out[..4], [1, 3, 101, 103]);
    assert_eq!(out[16..20], [4, 104, 12, 112]);
    assert_eq!(out[20..24], [6, 106, 14, 114]);
}

#[test]
fn keyframes_are_recognised() {
    assert!(has_idr_nal(&[0, 0, 0, 1, 0x65, 1]));
    assert!(has_idr_nal(&[0, 0, 1, 0x65, 1]));
    assert!(!has_idr_nal(&[0, 0, 0, 1, 0x41, 1]));
    assert!(!has_idr_nal(&[]));
    assert!(frame_of_bitstream(vec![]).is_none());
    assert!(frame_of_bitstream(vec![0, 0, 0, 1, 0x65, 1]).unwrap().is_keyframe);
}

#[test]
fn the_software_encoder_follows_requests() {
    let mut encoder = OpenH264Encoder::new(64, 64, 500_000).unwrap();
    assert_eq!(encoder.name(), "openh264");
    let grey = vec![90u8; 64 * 64 * 4];
    encoder.encode(&grey, 64, 64).unwrap();
    encoder.force_keyframe();
    let frame = encoder.encode(&grey, 64, 64).unwrap().unwrap();
    assert!(frame.is_keyframe);
    assert!(encoder.resize(32, 32).is_ok());
    let frame = encoder.encode(&vec![90u8; 32 * 32 * 4], 32, 32).unwrap().unwrap();
    assert!(frame.is_keyframe);
    assert!(matches!(encoder.encode_i420(&[], 2, 2), Err(EncodeError::Unsupported)));
}

#[test]
fn the_software_encoder_is_the_last_resort() {
    for preference in ["auto", "vaapi", "nvenc", "openh264", "whatever"] {
        let encoder = create_encoder(64, 64, preference, &no_ffmpeg).unwrap();
        assert_eq!(encoder.name(), "openh264");
        assert!(create_tile_encoder(64, 64, preference, &no_ffmpeg).is_ok());
    }
}

/// An encoder that remembers what it was asked.
struct Recorder {
    asked: Vec<(usize, u32, u32)>,
}

impl Encoder for Recorder {
    fn encode(&mut self, bgra: &[u8], width: u32, height: u32) -> EncodeResult {
        self.asked.push((bgra.len(), width, height));
        Ok(None)
    }

    fn encode_i420(&mut self, i420: &[u8], width: u32, height: u32) -> EncodeResult {
        self.asked.push((i420.len(), width, height));
        Err(EncodeError::Encode)
    }

    fn force_keyframe(&mut self) {}

    fn resize(&mut self, width: u32, height: u32) -> Result<(), EncodeError> {
        self.asked.push((0, width, height));
        Err(EncodeError::Create)
    }

    fn name(&self) -> &str {
        "recorder"
    }
}

#[test]
fn the_encoder_inside_does_the_work() {
    let mut any = AnyEncoder::Ffmpeg(Recorder { asked: vec![] });
    assert_eq!(any.name(), "recorder");
    assert_eq!(any.resize(4, 6), Err(EncodeError::Create));
    assert!(matches!(any.encode_i420(&[1, 2, 3], 8, 10), Err(EncodeError::Encode)));
    match any {
        AnyEncoder::Ffmpeg(inside) => assert_eq!(inside.asked, vec![(0, 4, 6), (3, 8, 10)]),
        AnyEncoder::OpenH264(_) => panic!("another encoder"),
    }
    let mut software = create_encoder(64, 64, "openh264", &no_ffmpeg).unwrap();
    assert!(matches!(software.encode_i420(&[], 2, 2), Err(EncodeError::Unsupported)));
    assert!(software.resize(32, 32).is_ok());
}

#[test]
fn ffmpeg_encoders_have_settings() {
    assert_eq!(
        FfmpegEncoderPreference::named("auto").encoders(),
        vec![H264Codec::Vaapi, H264Codec::Nvenc, H264Codec::Libx264]
    );
    assert_eq!(H264Codec::Vaapi.pixel_layout(), PixelLayout::Nv12);
    assert_eq!(H264Codec::Nvenc.rate_control(5), RateControl::Target(5));
    assert_eq!(
        H264Codec::Libx264.rate_control(5),
        RateControl::Capped { max_bit_rate: 10_000_000, buffer_bits: 4_000_000 }
    );
    assert_eq!(H264Codec::Libx264.name(), "libx264");
    assert!(!H264Codec::Libx264.options().is_empty());
    assert_eq!((encoded_size(7), encoded_size(8)), (8, 8));
    let mut clock = FrameClock::new(4, 4);
    assert!(clock.needs_resize(4, 5));
    clock.force_keyframe();
    assert_eq!(clock.stamp(), (0, true));
    assert_eq!(clock.stamp(), (1, false));
    clock.resized(4, 5);
    assert_eq!(clock.stamp(), (0, true));
}

#[test]
fn planes_are_copied_row_by_row() {
    let (y, u, v) = i420_planes(4, 2, 2);
    assert_eq!((y.from, y.row_len, y.rows), (0, 4, 2));
    assert_eq!((u.from, u.row_len, u.rows), (8, 2, 1));
    assert_eq!((v.from, v.row_len, v.rows), (10, 2, 1));
    let src: Vec<u8> = (0..8).collect();
    let mut dst = [9u8; 12];
    copy_rows(&src, 0, 4, 2, &mut dst, 6);
    assert_eq!(dst, [0, 1, 2, 3, 9, 9, 4, 5, 6, 7, 9, 9]);
}

#[test]
fn tiles_cover_the_output() {
    let mut grid = TileGrid::new("out".to_string(), 100, 60, 3, 2, "openh264", &no_ffmpeg).unwrap();
    assert_eq!(grid.output_name(), "out");
    assert_eq!((grid.tile_count(), grid.dirty_count()), (6, 6));
    let frames = grid.encode_dirty_tiles(&vec![100u8; 100 * 60 * 4]);
    assert_eq!(frames.len(), 6);
    assert_eq!(frames.iter().map(|f| f.width as u32 * f.height as u32).sum::<u32>(), 6000);
    assert!(frames.iter().all(|f| f.is_keyframe));
    assert_eq!(grid.dirty_count(), 0);
    grid.mark_damage(&[Rect { x: 0, y: 0, width: 5, height: 5 }]);
    assert_eq!(grid.dirty_count(), 1);
    grid.force_all_keyframes();
    assert_eq!(grid.dirty_count(), 6);
    assert!(grid.resize(50, 50, "openh264", &no_ffmpeg).is_ok());
    assert_eq!(grid.tile_count(), 6);
}

#[test]
fn tiles_are_cut_out() {
    let picture: Vec<u8> = (0..3 * 2 * 4).collect();
    assert_eq!(extract_tile(&picture, 3, 1, 1, 1, 1), vec![16, 17, 18, 19]);
    assert!(rects_overlap(0, 0, 5, 5, 4, 4, 5, 5));
    assert!(!rects_overlap(0, 0, 5, 5, 5, 0, 5, 5));
}

#[test]
fn sound_formats_are_agreed_on() {
    let ours = supported_formats();
    assert_eq!(ours.len(), 3);
    assert_eq!((ours[0].tag, ours[0].channels, ours[0].samples_per_second), (1, 2, 44100));
    assert_eq!((ours[0].block_align, ours[0].bytes_per_second), (4, 176_400));
    assert_eq!(negotiate(&[ours[1]]), Some(1));
    let mut other = ours[0];
    other.tag = 99;
    assert_eq!(negotiate(&[other]), None);
    assert_eq!(negotiate(&[other, ours[2], ours[0]]), Some(2));
}

#[test]
fn sound_is_cut_into_pieces() {
    let mut chunker = Chunker::new(100, 1);
    assert_eq!(chunker.chunk_bytes, 4);
    assert!(chunker.push(&[1, 2, 3], 0, 3).is_empty());
    assert_eq!(chunker.push(&[9, 4, 5, 6, 7, 8, 9], 1, 6), vec![vec![1, 2, 3, 4], vec![5, 6, 7, 8]]);
    assert_eq!(chunker.pending, vec![9]);
}

fn cursor_file(size: u32) -> Vec<u8> {
    let le = |n: u32| n.to_le_bytes();
    [
        &b"Xcur"[..],
        &le(16),
        &le(0x10000),
        &le(1),
        &le(0xfffd_0002),
        &le(size),
        &le(28),
        &le(36),
        &le(0xfffd_0002),
        &le(size),
        &le(1),
        &le(1),
        &le(2),
        &le(0),
        &le(1),
        &le(0),
        &[1, 2, 3, 4, 5, 6, 7, 8],
    ]
    .concat()
}

#[test]
fn cursor_files_are_read() {
    let mut cache = CursorCache::new();
    cache.add_cursor_file("left_ptr", &cursor_file(24), 24);
    cache.add_cursor_file("broken", b"none", 24);
    let shape = cache.load_named_cursor("left_ptr").unwrap();
    assert_eq!((shape.width, shape.height, shape.hot_x), (1, 2, 0));
    assert_eq!(shape.rgba.len(), 8);
    assert!(cache.load_named_cursor("default").is_none());
    assert!(cache.load_named_cursor("broken").is_none());
    cache.add_aliases();
    assert_eq!(cache.entries.len(), 2);
    assert_eq!(cache.load_named_cursor("default").unwrap().rgba.len(), 8);
    assert!(cursor_names().contains(&"default"));
    assert_eq!((cursor_size(Some("48")), cursor_size(Some("x")), cursor_size(None)), (48, 24, 24));
    assert_eq!(cursor_icon_to_name(CursorIcon::Help), "help");
}

/// An encoder that takes BGRA only.
struct Plain {
    asked: Vec<usize>,
}

impl Encoder for Plain {
    fn encode(&mut self, bgra: &[u8], _width: u32, _height: u32) -> EncodeResult {
        self.asked.push(bgra.len());
        Ok(None)
    }

    fn force_keyframe(&mut self) {}

    fn resize(&mut self, _width: u32, _height: u32) -> Result<(), EncodeError> {
        Ok(())
    }

    fn name(&self) -> &str {
        "plain"
    }
}

#[test]
fn planes_fall_back_to_pixels() {
    let mut plain = Plain { asked: vec![] };
    assert!(matches!(plain.encode_i420(&[7; 16], 2, 2), Ok(None)));
    assert!(matches!(plain.encode_i420(&[7; 15], 2, 2), Err(EncodeError::Unsupported)));
    assert_eq!(plain.asked, vec![16]);
    let bytes = vec![90u8; 64 * 64 * 4];
    let mut first = OpenH264Encoder::new(64, 64, 500_000).unwrap();
    let mut second = OpenH264Encoder::new(64, 64, 500_000).unwrap();
    let direct = first.encode(&bytes, 64, 64).unwrap().unwrap();
    let fallen = second.encode_i420(&bytes, 64, 64).unwrap().unwrap();
    assert_eq!((direct.is_keyframe, fallen.is_keyframe), (true, true));
}

#[test]
fn odd_sizes_are_taken() {
    let black = [0u8; 3 * 3 * 4];
    let mut planes = vec![0u8; 9 + 2];
    bgra_to_i420(&black, 3, 3, &mut planes);
    assert_eq!(planes, vec![16, 16, 16, 16, 16, 16, 16, 16, 16, 128, 128]);
    let mut planes = vec![0u8; 9];
    bgra_to_i420(&black, 3, 2, &mut planes);
    assert_eq!(planes, vec![16, 16, 16, 16, 16, 16, 128, 128, 0]);
    let mut encoder = OpenH264Encoder::new(33, 31, 500_000).unwrap();
    assert!(encoder.can_take(33, 31));
    assert!(!encoder.can_take(70_000, 70_000));
    let frame = encoder.encode(&vec![90u8; 33 * 31 * 4], 33, 31).unwrap().unwrap();
    assert!(frame.is_keyframe);
}

#[test]
fn tiles_are_encoded_once() {
    let mut grid = TileGrid::new("out".to_string(), 65, 65, 2, 2, "openh264", &no_ffmpeg).unwrap();
    assert!(grid.can_encode());
    let picture = vec![100u8; 65 * 65 * 4];
    assert_eq!(grid.encode_dirty_tiles(&picture).len(), 4);
    assert_eq!(grid.dirty_count(), 0);
    assert!(grid.encode_dirty_tiles(&picture).is_empty());
}

#[test]
fn the_chroma_stream_keeps_each_sample_once() {
    let (w, h) = (8usize, 4usize);
    let stream = |u: &[u8], v: &[u8]| {
        let mut out = vec![9u8; w * h * 3 / 2 + 2];
        pack_avc444v2_chroma(u, v, w as u32, h as u32, &mut out);
        out
    };
    let grey = vec![128u8; w * h];
    let plain = stream(&grey, &grey);
    assert_eq!(plain[w * h * 3 / 2..], [9, 9]);
    let mut places = Vec::new();
    for i in 0..w * h {
        let kept = (i / w) % 2 == 1 || (i % w) % 2 == 1;
        let mut marked = grey.clone();
        marked[i] = 7;
        for out in [stream(&marked, &grey), stream(&grey, &marked)] {
            let changed: Vec<usize> = (0..out.len()).filter(|&p| out[p] != plain[p]).collect();
            assert_eq!(changed.len(), usize::from(kept));
            places.extend(changed);
        }
    }
    places.sort();
    assert_eq!(places, (0..w * h * 3 / 2).collect::<Vec<usize>>());
}

#[test]
fn both_ways_to_planes_agree_on_blocks_of_one_colour() {
    let (w, h) = (4usize, 4usize);
    let colors = [[10u8, 20, 30, 255], [200, 100, 50, 0], [0, 0, 0, 9], [255, 255, 255, 255]];
    let block = |i: usize| colors[(i / w / 2) * 2 + (i % w) / 2];
    let mut bgra: Vec<u8> = (0..w * h).flat_map(block).collect();
    let both = |bgra: &[u8]| {
        let mut direct = vec![3u8; w * h * 3 / 2 + 1];
        bgra_to_i420(bgra, w as u32, h as u32, &mut direct);
        let (mut y, mut u, mut v) = (vec![0; w * h], vec![0; w * h], vec![0; w * h]);
        bgra_to_yuv444(bgra, w as u32, h as u32, &mut y, &mut u, &mut v);
        let mut stepped = vec![3u8; w * h * 3 / 2 + 1];
        yuv444_to_i420(&y, &u, &v, w as u32, h as u32, &mut stepped);
        (direct, stepped)
    };
    let (direct, stepped) = both(&bgra);
    assert_eq!(direct, stepped);
    // In any picture the brightness is the same.
    bgra[0] = 255;
    let (direct, stepped) = both(&bgra);
    assert_eq!(direct[..w * h], stepped[..w * h]);
}
