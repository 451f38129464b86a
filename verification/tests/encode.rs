use desktopinator::encode::planes::bgra_to_i420;
use desktopinator::encode::software::OpenH264Encoder;
use desktopinator::encode::Encoder;

#[test]
fn bgra_to_i420_black() {
    let w = 4u32;
    let h = 4u32;
    let bgra = vec![0u8; (w * h * 4) as usize];
    let mut yuv = vec![0u8; (w * h * 3 / 2) as usize];
    bgra_to_i420(&bgra, w, h, &mut yuv);
    // Black pixel: Y=16, U=128, V=128 (BT.601)
    assert_eq!(yuv[0], 16); // Y
    let y_size = (w * h) as usize;
    assert_eq!(yuv[y_size], 128); // U
    let uv_size = (w / 2 * h / 2) as usize;
    assert_eq!(yuv[y_size + uv_size], 128); // V
}

#[test]
fn encode_one_frame() {
    let w = 64u32;
    let h = 64u32;
    let bgra = vec![128u8; (w * h * 4) as usize];
    let mut enc = OpenH264Encoder::new(w, h, 500_000).unwrap();
    let result = enc.encode(&bgra, w, h).unwrap();
    assert!(result.is_some(), "first frame should produce output");
    let frame = result.unwrap();
    assert!(!frame.data.is_empty());
    assert!(frame.is_keyframe, "first frame should be a keyframe");
}
