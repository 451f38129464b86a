use desktopinator::clipboard::dib::{can_make_dib, make_dib, read_dib, DibError};
use desktopinator::clipboard::picture::{decoded_to_dib, dib_to_png, png_to_dib, PictureError};
use desktopinator::clipboard::state::{
    image_mime, offered_types, serves_text, text_mime, ClipboardState,
};
use desktopinator::clipboard::utf16::{decode_text, encode_text};

const PIXELS: [u8; 16] = [10, 20, 30, 255, 40, 50, 60, 255, 70, 80, 90, 255, 1, 2, 3, 255];

#[test]
fn text_survives_utf16() {
    for text in ["", "plain", "grüße €", "𝄞 and 🙂"] {
        assert_eq!(decode_text(&encode_text(text)), text);
    }
    assert_eq!(encode_text("a𝄞"), vec![0x61, 0, 0x34, 0xD8, 0x1E, 0xDD, 0, 0]);
}

#[test]
fn broken_surrogates_are_replaced() {
    assert_eq!(decode_text(&[0x34, 0xD8, 0x61, 0]), "\u{FFFD}a");
    // Only zeros at the end are dropped.
    assert_eq!(decode_text(&[0x61, 0, 0, 0, 0x62, 0, 0, 0, 0, 0]), "a\0b");
}

#[test]
fn bitmaps_read_back() {
    assert!(can_make_dib(2, 2, &PIXELS));
    let dib = make_dib(2, 2, &PIXELS);
    assert_eq!(dib.len(), 40 + 16);
    assert_eq!(dib[..8], [40, 0, 0, 0, 2, 0, 0, 0]);
    // The lowest row comes first, blue before red.
    assert_eq!(dib[40..44], [90, 80, 70, 255]);
    let picture = read_dib(&dib).unwrap();
    assert_eq!((picture.width, picture.height), (2, 2));
    assert_eq!(picture.pixels, PIXELS);
}

#[test]
fn bad_bitmaps_are_refused() {
    assert!(matches!(read_dib(&[0; 39]), Err(DibError::TooShort)));
    let mut dib = make_dib(2, 2, &PIXELS);
    dib[14] = 8;
    assert!(matches!(read_dib(&dib), Err(DibError::Depth { bits: 8 })));
    assert!(matches!(dib_to_png(&dib), Err(PictureError::Dib(DibError::Depth { bits: 8 }))));
    assert!(!can_make_dib(2, 2, &PIXELS[..8]));
}

#[test]
fn pictures_survive_png() {
    let dib = make_dib(2, 2, &PIXELS);
    let png = dib_to_png(&dib).unwrap();
    assert_eq!(png[1..4], *b"PNG");
    assert_eq!(png_to_dib(&png).unwrap(), dib);
    assert!(png_to_dib(b"no picture").is_none());
    assert_eq!(decoded_to_dib(Some((2, 2, PIXELS.to_vec()))).unwrap(), dib);
    assert!(decoded_to_dib(None).is_none());
}

#[test]
fn the_client_gets_what_was_copied() {
    let mut state = ClipboardState::default();
    assert!(state.available_formats().is_empty());
    assert_eq!(state.wayland_copied("hi".to_string()), vec![13]);
    assert_eq!(state.available_formats(), vec![13]);
    assert_eq!(state.format_data(13).unwrap(), encode_text("hi"));
    assert!(state.format_data(8).is_none());
    state.wayland_image = Some(dib_to_png(&make_dib(2, 2, &PIXELS)).unwrap());
    assert_eq!(state.format_data(8).unwrap(), make_dib(2, 2, &PIXELS));
    assert!(state.available_formats().contains(&8));
}

#[test]
fn applications_get_what_the_client_copied() {
    let mut state = ClipboardState::default();
    assert_eq!(state.remote_copy(&[13, 1, 8]), vec![13, 8]);
    state.format_response(&encode_text("from afar"));
    assert_eq!(state.take_rdp_text().as_deref(), Some("from afar"));
    assert_eq!(state.take_rdp_text(), None);
    state.format_response(&make_dib(2, 2, &PIXELS));
    assert!(state.rdp_image.is_some());
    state.format_response(&[1]);
}

#[test]
fn types_are_chosen_in_order() {
    let list = |l: &[&str]| l.iter().map(|s| s.to_string()).collect::<Vec<String>>();
    assert_eq!(image_mime(&list(&["text/html", "image/bmp", "image/png"])), Some(1));
    assert_eq!(image_mime(&list(&["image/gif"])), None);
    assert_eq!(text_mime(&list(&["x", "text/plain;charset=utf-8"])), Some(1));
    assert!(serves_text("text/plain;charset=utf-8") && serves_text("STRING"));
    assert!(!serves_text("image/png"));
    assert_eq!(offered_types().len(), 4);
}

#[test]
fn short_texts_are_no_bitmaps() {
    let mut state = ClipboardState::default();
    state.format_response(&[0x28, 0, 0, 0]);
    assert_eq!(state.take_rdp_text().as_deref(), Some("("));
    assert!(state.rdp_image.is_none());
    state.format_response(&encode_text("(and more"));
    assert_eq!(state.take_rdp_text().as_deref(), Some("(and more"));
}

#[test]
fn bitmaps_without_pixels_are_not_converted() {
    let mut dib = make_dib(2, 2, &PIXELS);
    dib[4] = 0;
    assert!(matches!(dib_to_png(&dib), Err(PictureError::Encode)));
}
