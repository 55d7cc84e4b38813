//! The pixel stages of the image pipeline on RGB buffers: decoding,
//! resampling, turning upright, color transforms, and the RGBA layout the
//! display takes.
use vstd::prelude::*;
use crate::fields::FieldMap;
use crate::metadata::{ImageOp, ops_of, declared_orientation};
use crate::pipeline::{resize_dimensions, resized, rgb_to_rgba, orientation_ops};
use crate::paths::extension;
use crate::formats::JXL_EXTENSION;

verus! {

/// An RGB image: `width * height` pixels of three bytes, row by row.
#[derive(Clone, Debug)]
pub struct RgbBuffer {
    pub width: u32,
    pub height: u32,
    pub pixels: Vec<u8>,
}

impl RgbBuffer {
    pub open spec fn wf(&self) -> bool {
        self.pixels@.len() == (self.width as int) * (self.height as int) * 3
    }
}

/// The size of an image after `op`.
pub open spec fn out_dims(op: ImageOp, w: int, h: int) -> (int, int) {
    match op {
        ImageOp::Rotate90 | ImageOp::Rotate270 => (h, w),
        _ => (w, h),
    }
}

/// The position in the source image of the pixel that `op` puts at
/// `(x, y)`.
pub open spec fn src_coords(op: ImageOp, w: int, h: int, x: int, y: int) -> (int, int) {
    match op {
        ImageOp::FlipHorizontal => (w - 1 - x, y),
        ImageOp::FlipVertical => (x, h - 1 - y),
        ImageOp::Rotate90 => (y, h - 1 - x),
        ImageOp::Rotate180 => (w - 1 - x, h - 1 - y),
        ImageOp::Rotate270 => (w - 1 - y, x),
    }
}

/// The pixels of a `w` by `h` image after `op`.
pub open spec fn op_pixels(op: ImageOp, w: int, h: int, p: Seq<u8>) -> Seq<u8> {
    let (w2, h2) = out_dims(op, w, h);
    Seq::new(
        (w2 * h2 * 3) as nat,
        |i: int|
            {
                let q = i / 3;
                let (sx, sy) = src_coords(op, w, h, q % w2, q / w2);
                p[(sy * w + sx) * 3 + i % 3]
            },
    )
}

/// An image after `op`: its size and pixels.
pub open spec fn op_result(op: ImageOp, w: int, h: int, p: Seq<u8>) -> (int, int, Seq<u8>) {
    let (w2, h2) = out_dims(op, w, h);
    (w2, h2, op_pixels(op, w, h, p))
}

/// An image after the transforms `ops`, applied in order.
pub open spec fn after_ops(w: int, h: int, p: Seq<u8>, ops: Seq<ImageOp>) -> (int, int, Seq<u8>)
    decreases ops.len(),
{
    if ops.len() == 0 {
        (w, h, p)
    } else {
        let (w1, h1, q1) = after_ops(w, h, p, ops.drop_last());
        op_result(ops.last(), w1, h1, q1)
    }
}

/// What `image::load_from_memory` decodes from the bytes, as RGB: width,
/// height and pixels; `None` where the bytes do not decode.
pub uninterp spec fn decoded_image(bytes: Seq<u8>) -> Option<(int, int, Seq<u8>)>;

/// What `fast_image_resize` resamples a `w` by `h` RGB image to at
/// `dw` by `dh` with its default options; `None` where it fails.
pub uninterp spec fn resampled(w: int, h: int, p: Seq<u8>, dw: int, dh: int) -> Option<Seq<u8>>;

/// What a perceptual lcms2 transform from the profile `input_icc` to the
/// profile `output_icc` makes of RGB pixels; `None` where either profile
/// does not read or the transform cannot be built.
pub uninterp spec fn cms_transformed(input_icc: Seq<u8>, output_icc: Seq<u8>, p: Seq<u8>) -> Option<
    Seq<u8>,
>;

/// Relies on `image::load_from_memory`, converted to RGB with
/// `DynamicImage::into_rgb8`: a buffer of exactly three bytes a pixel.
#[verifier::external_body]
fn decode_rgb(bytes: &[u8]) -> (r: Option<RgbBuffer>)
    ensures
        match r {
            Some(b) => b.wf() && decoded_image(bytes@) == Some(
                (b.width as int, b.height as int, b.pixels@),
            ),
            None => decoded_image(bytes@) is None,
        },
{
    match image::load_from_memory(bytes) {
        Ok(img) => {
            let rgb = img.into_rgb8();
            Some(RgbBuffer { width: rgb.width(), height: rgb.height(), pixels: rgb.into_raw() })
        },
        Err(_) => None,
    }
}

/// Relies on `image::imageops::flip_horizontal`: the pixel at `(x, y)`
/// moves to `(w - 1 - x, y)`.
#[verifier::external_body]
fn flip_horizontal(img: &RgbBuffer) -> (r: RgbBuffer)
    requires
        img.wf(),
    ensures
        r.wf(),
        (r.width as int, r.height as int, r.pixels@) == op_result(
            ImageOp::FlipHorizontal,
            img.width as int,
            img.height as int,
            img.pixels@,
        ),
{
    match image::RgbImage::from_raw(img.width, img.height, img.pixels.clone()) {
        Some(b) => {
            let o = image::imageops::flip_horizontal(&b);
            RgbBuffer { width: o.width(), height: o.height(), pixels: o.into_raw() }
        },
        None => img.clone(),
    }
}

/// Relies on `image::imageops::flip_vertical`: the pixel at `(x, y)`
/// moves to `(x, h - 1 - y)`.
#[verifier::external_body]
fn flip_vertical(img: &RgbBuffer) -> (r: RgbBuffer)
    requires
        img.wf(),
    ensures
        r.wf(),
        (r.width as int, r.height as int, r.pixels@) == op_result(
            ImageOp::FlipVertical,
            img.width as int,
            img.height as int,
            img.pixels@,
        ),
{
    match image::RgbImage::from_raw(img.width, img.height, img.pixels.clone()) {
        Some(b) => {
            let o = image::imageops::flip_vertical(&b);
            RgbBuffer { width: o.width(), height: o.height(), pixels: o.into_raw() }
        },
        None => img.clone(),
    }
}

/// Relies on `image::imageops::rotate90`: a clockwise quarter turn; the
/// pixel at `(x, y)` moves to `(h - 1 - y, x)` of an `h` by `w` image.
#[verifier::external_body]
fn rotate90(img: &RgbBuffer) -> (r: RgbBuffer)
    requires
        img.wf(),
    ensures
        r.wf(),
        (r.width as int, r.height as int, r.pixels@) == op_result(
            ImageOp::Rotate90,
            img.width as int,
            img.height as int,
            img.pixels@,
        ),
{
    match image::RgbImage::from_raw(img.width, img.height, img.pixels.clone()) {
        Some(b) => {
            let o = image::imageops::rotate90(&b);
            RgbBuffer { width: o.width(), height: o.height(), pixels: o.into_raw() }
        },
        None => img.clone(),
    }
}

/// Relies on `image::imageops::rotate180`: the pixel at `(x, y)` moves to
/// `(w - 1 - x, h - 1 - y)`.
#[verifier::external_body]
fn rotate180(img: &RgbBuffer) -> (r: RgbBuffer)
    requires
        img.wf(),
    ensures
        r.wf(),
        (r.width as int, r.height as int, r.pixels@) == op_result(
            ImageOp::Rotate180,
            img.width as int,
            img.height as int,
            img.pixels@,
        ),
{
    match image::RgbImage::from_raw(img.width, img.height, img.pixels.clone()) {
        Some(b) => {
            let o = image::imageops::rotate180(&b);
            RgbBuffer { width: o.width(), height: o.height(), pixels: o.into_raw() }
        },
        None => img.clone(),
    }
}

/// Relies on `image::imageops::rotate270`: a counter-clockwise quarter
/// turn; the pixel at `(x, y)` moves to `(y, w - 1 - x)` of an `h` by `w`
/// image.
#[verifier::external_body]
fn rotate270(img: &RgbBuffer) -> (r: RgbBuffer)
    requires
        img.wf(),
    ensures
        r.wf(),
        (r.width as int, r.height as int, r.pixels@) == op_result(
            ImageOp::Rotate270,
            img.width as int,
            img.height as int,
            img.pixels@,
        ),
{
    match image::RgbImage::from_raw(img.width, img.height, img.pixels.clone()) {
        Some(b) => {
            let o = image::imageops::rotate270(&b);
            RgbBuffer { width: o.width(), height: o.height(), pixels: o.into_raw() }
        },
        None => img.clone(),
    }
}

/// Relies on `fast_image_resize::Resizer::resize` with default options
/// into a new `dw` by `dh` RGB image, whose buffer holds three bytes a
/// pixel.
#[verifier::external_body]
fn resample(img: &RgbBuffer, dw: u32, dh: u32) -> (r: Option<RgbBuffer>)
    requires
        img.wf(),
        dw > 0,
        dh > 0,
    ensures
        match r {
            Some(b) => b.width == dw && b.height == dh && b.wf() && resampled(
                img.width as int,
                img.height as int,
                img.pixels@,
                dw as int,
                dh as int,
            ) == Some(b.pixels@),
            None => resampled(
                img.width as int,
                img.height as int,
                img.pixels@,
                dw as int,
                dh as int,
            ) is None,
        },
{
    let u8x3 = fast_image_resize::PixelType::U8x3;
    let pixels = img.pixels.clone();
    let src = fast_image_resize::images::Image::from_vec_u8(img.width, img.height, pixels, u8x3);
    let src = match src {
        Ok(i) => i,
        Err(_) => return None,
    };
    let mut dst = fast_image_resize::images::Image::new(dw, dh, u8x3);
    let options = fast_image_resize::ResizeOptions::new();
    match fast_image_resize::Resizer::new().resize(&src, &mut dst, &options) {
        Ok(_) => Some(RgbBuffer { width: dw, height: dh, pixels: dst.buffer().to_vec() }),
        Err(_) => None,
    }
}

/// Relies on `lcms2::Profile::new_icc` for both profiles,
/// `lcms2::Transform::new` with `RGB_8` pixels and perceptual intent, and
/// `Transform::transform_in_place`; the pixels are left as they are where
/// a profile does not read or the transform cannot be built.
#[verifier::external_body]
fn icc_transform(input_icc: &[u8], output_icc: &[u8], pixels: &mut Vec<u8>) -> (r: bool)
    requires
        old(pixels)@.len() % 3 == 0,
        old(pixels)@.len() <= 3 * (u32::MAX as int),
    ensures
        final(pixels)@.len() == old(pixels)@.len(),
        r ==> cms_transformed(input_icc@, output_icc@, old(pixels)@) == Some(final(pixels)@),
        !r ==> cms_transformed(input_icc@, output_icc@, old(pixels)@) is None && final(pixels)@
            == old(pixels)@,
{
    let (input, output) = match (
        lcms2::Profile::new_icc(input_icc),
        lcms2::Profile::new_icc(output_icc),
    ) {
        (Ok(i), Ok(o)) => (i, o),
        _ => return false,
    };
    let rgb = lcms2::PixelFormat::RGB_8;
    match lcms2::Transform::new(&input, rgb, &output, rgb, lcms2::Intent::Perceptual) {
        Ok(t) => {
            t.transform_in_place(pixels.as_mut_slice());
            true
        },
        Err(_) => false,
    }
}

fn apply_op(img: &RgbBuffer, op: ImageOp) -> (r: RgbBuffer)
    requires
        img.wf(),
    ensures
        r.wf(),
        (r.width as int, r.height as int, r.pixels@) == op_result(
            op,
            img.width as int,
            img.height as int,
            img.pixels@,
        ),
{
    match op {
        ImageOp::FlipHorizontal => flip_horizontal(img),
        ImageOp::FlipVertical => flip_vertical(img),
        ImageOp::Rotate90 => rotate90(img),
        ImageOp::Rotate180 => rotate180(img),
        ImageOp::Rotate270 => rotate270(img),
    }
}

/// Decodes an image's bytes to RGB.
pub fn decode(bytes: &[u8]) -> (r: Option<RgbBuffer>)
    ensures
        match r {
            Some(b) => b.wf() && decoded_image(bytes@) == Some(
                (b.width as int, b.height as int, b.pixels@),
            ),
            None => decoded_image(bytes@) is None,
        },
{
    decode_rgb(bytes)
}

/// Resizes an image for a target size (see `resized`); where no size
/// results or resampling fails, the image is kept as it is.
pub fn resize(img: RgbBuffer, target: u32) -> (r: RgbBuffer)
    requires
        img.wf(),
    ensures
        r.wf(),
        match resized(img.width as int, img.height as int, target as int) {
            Some((dw, dh)) => match resampled(
                img.width as int,
                img.height as int,
                img.pixels@,
                dw,
                dh,
            ) {
                Some(p) => r.width == dw && r.height == dh && r.pixels@ == p,
                None => r == img,
            },
            None => r == img,
        },
{
    match resize_dimensions(img.width, img.height, target) {
        Some((dw, dh)) => match resample(&img, dw, dh) {
            Some(b) => b,
            None => img,
        },
        None => img,
    }
}

/// Applies the transforms `ops` in order.
pub fn orient(img: RgbBuffer, ops: &Vec<ImageOp>) -> (r: RgbBuffer)
    requires
        img.wf(),
    ensures
        r.wf(),
        (r.width as int, r.height as int, r.pixels@) == after_ops(
            img.width as int,
            img.height as int,
            img.pixels@,
            ops@,
        ),
{
    let ghost w0 = img.width as int;
    let ghost h0 = img.height as int;
    let ghost q0 = img.pixels@;
    let mut cur = img;
    let mut i: usize = 0;
    proof {
        assert(ops@.subrange(0, 0) == Seq::<ImageOp>::empty());
    }
    while i < ops.len()
        invariant
            i <= ops@.len(),
            cur.wf(),
            (cur.width as int, cur.height as int, cur.pixels@) == after_ops(
                w0,
                h0,
                q0,
                ops@.subrange(0, i as int),
            ),
        decreases ops@.len() - i,
    {
        proof {
            assert(ops@.subrange(0, i + 1).drop_last() == ops@.subrange(0, i as int));
            assert(ops@.subrange(0, i + 1).last() == ops@[i as int]);
        }
        cur = apply_op(&cur, ops[i]);
        i = i + 1;
    }
    proof {
        assert(ops@.subrange(0, ops@.len() as int) == ops@);
    }
    cur
}

/// Converts the pixels from the profile `input_icc` to `output_icc`; where
/// the transform cannot be made the pixels are kept as they are.
pub fn apply_cc(img: &mut RgbBuffer, input_icc: &[u8], output_icc: &[u8]) -> (r: bool)
    requires
        old(img).wf(),
        (old(img).width as int) * (old(img).height as int) <= u32::MAX as int,
    ensures
        final(img).wf(),
        final(img).width == old(img).width,
        final(img).height == old(img).height,
        match cms_transformed(input_icc@, output_icc@, old(img).pixels@) {
            Some(p) => r && final(img).pixels@ == p,
            None => !r && final(img).pixels@ == old(img).pixels@,
        },
{
    proof {
        let n = (img.width as int) * (img.height as int);
        assert(img.pixels@.len() == n * 3);
        assert((n * 3) % 3 == 0);
    }
    icc_transform(input_icc, output_icc, &mut img.pixels)
}

/// An image resized for an optional target size: kept where no size
/// results or resampling fails.
pub open spec fn resized_image(w: int, h: int, p: Seq<u8>, target: Option<u32>) -> (int, int, Seq<u8>) {
    match target {
        None => (w, h, p),
        Some(t) => match resized(w, h, t as int) {
            Some((dw, dh)) => match resampled(w, h, p, dw, dh) {
                Some(q) => (dw, dh, q),
                None => (w, h, p),
            },
            None => (w, h, p),
        },
    }
}

/// A decoded image of `path` resized for the target size and turned
/// upright as `fields` ask (not for a format stored upright).
pub open spec fn developed(
    w: int,
    h: int,
    p: Seq<u8>,
    path: Seq<char>,
    target: Option<u32>,
    fields: Map<Seq<char>, Seq<char>>,
) -> (int, int, Seq<u8>) {
    let (w1, h1, q1) = resized_image(w, h, p, target);
    let ops = if extension(path) == JXL_EXTENSION@ {
        seq![]
    } else {
        ops_of(declared_orientation(fields))
    };
    after_ops(w1, h1, q1, ops)
}

/// The image the bytes of `path` give once decoded by the multi-format
/// decoder and developed.
pub open spec fn prepared(
    bytes: Seq<u8>,
    path: Seq<char>,
    target: Option<u32>,
    fields: Map<Seq<char>, Seq<char>>,
) -> Option<(int, int, Seq<u8>)> {
    match decoded_image(bytes) {
        None => None,
        Some((w, h, p)) => Some(developed(w, h, p, path, target, fields)),
    }
}

/// The stages after decoding: resize for the target size if one is given,
/// and turn the image upright as its fields ask. For an image that a
/// decoder of the caller's choice produced (see `decoder_for`).
pub fn develop(img: RgbBuffer, path: &str, target_size: Option<u32>, fields: &FieldMap) -> (r:
    RgbBuffer)
    requires
        img.wf(),
    ensures
        r.wf(),
        (r.width as int, r.height as int, r.pixels@) == developed(
            img.width as int,
            img.height as int,
            img.pixels@,
            path@,
            target_size,
            fields.view(),
        ),
{
    let img = match target_size {
        Some(t) => resize(img, t),
        None => img,
    };
    let ops = orientation_ops(path, fields);
    orient(img, &ops)
}

/// Decodes the bytes of the image at `path` with the multi-format decoder
/// and develops it. `None` where the bytes do not decode.
pub fn prepare(bytes: &[u8], path: &str, target_size: Option<u32>, fields: &FieldMap) -> (r: Option<
    RgbBuffer,
>)
    ensures
        match r {
            Some(b) => b.wf() && prepared(bytes@, path@, target_size, fields.view()) == Some(
                (b.width as int, b.height as int, b.pixels@),
            ),
            None => prepared(bytes@, path@, target_size, fields.view()) is None,
        },
{
    match decode(bytes) {
        Some(img) => Some(develop(img, path, target_size, fields)),
        None => None,
    }
}

/// The pixels in the layout the display takes.
pub fn to_display(img: &RgbBuffer) -> (r: Vec<u8>)
    ensures
        r@.len() == (img.pixels@.len() / 3) * 4,
        forall|i: int, j: int|
            0 <= i < img.pixels@.len() / 3 && 0 <= j < 3 ==> #[trigger] r@[4 * i + j]
                == img.pixels@[3 * i + j],
        forall|i: int| 0 <= i < img.pixels@.len() / 3 ==> #[trigger] r@[4 * i + 3] == 255,
{
    rgb_to_rgba(&img.pixels)
}

} // verus!
