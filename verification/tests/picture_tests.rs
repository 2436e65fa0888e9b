use srcwroller::geometry::Region;
use srcwroller::picture::{crop_picture, decode_screencap, load_picture, load_png};
use srcwroller::screen_size::is_space;

fn png_bytes(w: u32, h: u32) -> Vec<u8> {
    let img = image::DynamicImage::ImageRgb8(image::RgbImage::new(w, h));
    let mut buf = std::io::Cursor::new(Vec::new());
    img.write_to(&mut buf, image::ImageFormat::Png).unwrap();
    buf.into_inner()
}

#[test]
fn a_png_is_decoded_whatever_the_loader() {
    let png = png_bytes(4, 3);
    let a = load_picture(&png).unwrap();
    assert_eq!((a.width(), a.height()), (4, 3));
    let b = load_png(&png).unwrap();
    assert_eq!((b.width(), b.height()), (4, 3));
}

#[test]
fn bytes_that_are_no_picture_are_refused() {
    assert!(load_picture(b"not a picture").is_none());
    assert!(load_png(b"not a picture").is_none());
    assert!(load_picture(&[]).is_none());
}

#[test]
fn a_screen_capture_is_decoded_after_what_precedes_its_signature() {
    let mut raw = b"WARNING: linker noise\r\n".to_vec();
    raw.extend(png_bytes(5, 2));
    let img = decode_screencap(&raw).unwrap();
    assert_eq!((img.width(), img.height()), (5, 2));
    // the same bytes without the leading text
    let img = decode_screencap(&png_bytes(5, 2)).unwrap();
    assert_eq!((img.width(), img.height()), (5, 2));
    // no signature: everything is decoded, and text is no picture
    assert!(decode_screencap(b"error: device offline").is_none());
}

#[test]
fn a_crop_keeps_the_part_of_the_region_inside_the_picture() {
    let img = load_png(&png_bytes(10, 8)).unwrap();
    let part = crop_picture(&img, &Region::new(2, 3, 4, 2));
    assert_eq!((part.width(), part.height()), (4, 2));
    let clamped = crop_picture(&img, &Region::new(7, 6, 10, 10));
    assert_eq!((clamped.width(), clamped.height()), (3, 2));
}

#[test]
fn white_space_is_what_std_calls_white_space() {
    for u in 0u32..=0x10FFFF {
        if let Some(c) = char::from_u32(u) {
            assert_eq!(is_space(c), c.is_whitespace(), "U+{:04X}", u);
        }
    }
    assert!(is_space(' '));
    assert!(is_space('\u{3000}'));
    assert!(!is_space('x'));
    assert!(!is_space('\u{200b}'));
}
