use avis_imgv::fields::FieldMap;
use avis_imgv::metadata::ImageOp;
use avis_imgv::raster::{apply_cc, decode, orient, prepare, resize, to_display, RgbBuffer};

/// A 3 by 2 image whose pixel (x, y) is (10x + y, 0, 0).
fn sample() -> RgbBuffer {
    let mut pixels = vec![];
    for y in 0..2u8 {
        for x in 0..3u8 {
            pixels.extend([10 * x + y, 0, 0]);
        }
    }
    RgbBuffer { width: 3, height: 2, pixels }
}

fn red(b: &RgbBuffer, x: u32, y: u32) -> u8 {
    b.pixels[((y * b.width + x) * 3) as usize]
}

fn png_of(b: &RgbBuffer) -> Vec<u8> {
    let img = image::RgbImage::from_raw(b.width, b.height, b.pixels.clone()).unwrap();
    let mut out = std::io::Cursor::new(Vec::new());
    img.write_to(&mut out, image::ImageFormat::Png).unwrap();
    out.into_inner()
}

#[test]
fn decode_reads_png_pixels() {
    let b = decode(&png_of(&sample())).unwrap();
    assert_eq!((b.width, b.height), (3, 2));
    assert_eq!(b.pixels, sample().pixels);
    assert!(decode(&[1, 2, 3]).is_none());
}

#[test]
fn rotations_and_flips_move_pixels() {
    let r = orient(sample(), &vec![ImageOp::Rotate90]);
    assert_eq!((r.width, r.height), (2, 3));
    // old (x, y) lands on (h - 1 - y, x)
    assert_eq!(red(&r, 1, 0), red(&sample(), 0, 0));
    assert_eq!(red(&r, 0, 2), red(&sample(), 2, 1));
    let r = orient(sample(), &vec![ImageOp::Rotate270]);
    assert_eq!(red(&r, 0, 2), red(&sample(), 0, 0));
    let r = orient(sample(), &vec![ImageOp::FlipHorizontal]);
    assert_eq!(red(&r, 0, 0), red(&sample(), 2, 0));
    let r = orient(sample(), &vec![ImageOp::FlipVertical, ImageOp::Rotate180]);
    assert_eq!(red(&r, 0, 0), red(&sample(), 2, 0));
    assert_eq!(orient(sample(), &vec![]).pixels, sample().pixels);
}

#[test]
fn resize_resamples_to_the_target() {
    let big = RgbBuffer { width: 40, height: 20, pixels: vec![200; 40 * 20 * 3] };
    let r = resize(big, 10);
    assert_eq!((r.width, r.height), (10, 5));
    assert_eq!(r.pixels.len(), 10 * 5 * 3);
    assert!(r.pixels.iter().all(|p| *p == 200));
    let small = resize(sample(), 10);
    assert_eq!((small.width, small.height), (3, 2));
}

#[test]
fn prepare_decodes_and_turns_upright() {
    let mut f = FieldMap::new();
    f.insert("Orientation".to_string(), "Rotate 90 CW".to_string());
    let b = prepare(&png_of(&sample()), "/a.png", None, &f).unwrap();
    assert_eq!((b.width, b.height), (2, 3));
    let b = prepare(&png_of(&sample()), "/a.jxl", None, &f).unwrap();
    assert_eq!((b.width, b.height), (3, 2));
    assert!(prepare(&[0, 1], "/a.png", None, &f).is_none());
}

#[test]
fn color_transform_between_profiles() {
    let srgb = lcms2::Profile::new_srgb().icc().unwrap();
    let mut img = RgbBuffer { width: 1, height: 1, pixels: vec![10, 20, 30] };
    assert!(apply_cc(&mut img, &srgb, &srgb));
    assert_eq!(img.pixels.len(), 3);
    let mut img = sample();
    assert!(!apply_cc(&mut img, &[1, 2, 3], &srgb));
    assert_eq!(img.pixels, sample().pixels);
}

#[test]
fn display_layout_is_rgba() {
    let d = to_display(&RgbBuffer { width: 1, height: 1, pixels: vec![1, 2, 3] });
    assert_eq!(d, vec![1, 2, 3, 255]);
}
