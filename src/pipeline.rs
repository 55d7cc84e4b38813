//! The decisions of the image pipeline: where an image's bytes come from,
//! which decoder reads them, how large the decoded image becomes, how it is
//! turned upright, which color transform applies, and the pixel layout
//! handed to the display.
use vstd::prelude::*;
use crate::fields::FieldMap;
use crate::formats::{lower_of, lowercase, is_raw_path, is_raw_file, skips_orientation, JXL_EXTENSION};
use crate::metadata::{ImageOp, Metadata, ops_of, declared_orientation, PROFILE_DESCRIPTION_FIELD};
use crate::paths::extension;
use crate::text::{occurs_at, str_contains, str_eq};
use crate::formats::extension_string;
use vstd::arithmetic::div_mod::{lemma_div_is_ordered, lemma_div_by_multiple};

verus! {

/// The color profiles the browser carries.
#[derive(PartialEq, Eq, Structural, Clone, Copy, Debug)]
pub enum IccProfile {
    AdobeRgb,
    DisplayP3,
    Srgb,
}

pub open spec fn contains_text(s: Seq<char>, p: Seq<char>) -> bool {
    exists|i: int| occurs_at(s, p, i)
}

/// The built-in profile a profile description names: the first of "adobe
/// rgb", "display p3" and "srgb" found in its lower-cased text.
pub open spec fn profile_for(desc: Seq<char>) -> Option<IccProfile> {
    let l = lower_of(desc);
    if contains_text(l, "adobe rgb"@) {
        Some(IccProfile::AdobeRgb)
    } else if contains_text(l, "display p3"@) {
        Some(IccProfile::DisplayP3)
    } else if contains_text(l, "srgb"@) {
        Some(IccProfile::Srgb)
    } else {
        None
    }
}

pub fn profile_desc_to_icc(desc: &str) -> (r: Option<IccProfile>)
    ensures
        r == profile_for(desc@),
{
    let l = lowercase(desc);
    if str_contains(l.as_str(), "adobe rgb") {
        Some(IccProfile::AdobeRgb)
    } else if str_contains(l.as_str(), "display p3") {
        Some(IccProfile::DisplayP3)
    } else if str_contains(l.as_str(), "srgb") {
        Some(IccProfile::Srgb)
    } else {
        None
    }
}

/// Where the input profile of a color transform comes from.
#[derive(PartialEq, Eq, Structural, Clone, Copy, Debug)]
pub enum ProfileSource {
    Builtin(IccProfile),
    /// The profile embedded in the image file, to be extracted.
    Embedded,
}

/// What color management does to an image.
#[derive(PartialEq, Eq, Structural, Clone, Copy, Debug)]
pub enum ColorPlan {
    /// The pixels are left as they are.
    Keep,
    /// A perceptual transform from `input` to `output` applies.
    Transform { input: ProfileSource, output: IccProfile },
}

/// The color plan for an image whose fields describe its profile as
/// `desc` (if at all), displayed in `output_profile`: nothing where the
/// description already names the output profile or the output profile is
/// not a built-in one; otherwise a transform from the built-in profile the
/// description names, or from the embedded one.
pub open spec fn color_plan_for(desc: Option<Seq<char>>, output_profile: Seq<char>) -> ColorPlan {
    match desc {
        None => ColorPlan::Keep,
        Some(d) => if contains_text(lower_of(d), lower_of(output_profile)) {
            ColorPlan::Keep
        } else {
            match profile_for(output_profile) {
                None => ColorPlan::Keep,
                Some(out) => ColorPlan::Transform {
                    input: match profile_for(d) {
                        Some(p) => ProfileSource::Builtin(p),
                        None => ProfileSource::Embedded,
                    },
                    output: out,
                },
            }
        },
    }
}

pub fn color_plan(desc: Option<&String>, output_profile: &str) -> (r: ColorPlan)
    ensures
        r == color_plan_for(
            match desc {
                Some(d) => Some(d@),
                None => None,
            },
            output_profile@,
        ),
{
    match desc {
        None => ColorPlan::Keep,
        Some(d) => {
            let ld = lowercase(d.as_str());
            let lo = lowercase(output_profile);
            if str_contains(ld.as_str(), lo.as_str()) {
                ColorPlan::Keep
            } else {
                match profile_desc_to_icc(output_profile) {
                    None => ColorPlan::Keep,
                    Some(out) => ColorPlan::Transform {
                        input: match profile_desc_to_icc(d.as_str()) {
                            Some(p) => ProfileSource::Builtin(p),
                            None => ProfileSource::Embedded,
                        },
                        output: out,
                    },
                }
            }
        },
    }
}

/// The color plan for an image with the given fields.
pub fn color_plan_for_fields(fields: &FieldMap, output_profile: &str) -> (r: ColorPlan)
    ensures
        r == color_plan_for(
            if fields.view().dom().contains(PROFILE_DESCRIPTION_FIELD@) {
                Some(fields.view()[PROFILE_DESCRIPTION_FIELD@])
            } else {
                None
            },
            output_profile@,
        ),
{
    let key = String::from_str(PROFILE_DESCRIPTION_FIELD);
    color_plan(fields.get(&key), output_profile)
}

/// Where an image's encoded bytes come from.
#[derive(PartialEq, Eq, Structural, Clone, Copy, Debug)]
pub enum ByteSource {
    /// The preview embedded in a camera raw file, pulled by the extraction
    /// tool.
    RawPreview,
    /// The file itself.
    File,
}

pub fn byte_source(path: &str) -> (r: ByteSource)
    ensures
        r == if is_raw_path(path@) {
            ByteSource::RawPreview
        } else {
            ByteSource::File
        },
{
    if is_raw_file(path) {
        ByteSource::RawPreview
    } else {
        ByteSource::File
    }
}

/// Which decoder reads an image's bytes.
#[derive(PartialEq, Eq, Structural, Clone, Copy, Debug)]
pub enum Decoder {
    /// The decoder of the modern transform-coded format.
    Jxl,
    /// The multi-format decoder.
    Generic,
}

pub fn decoder_for(path: &str) -> (r: Decoder)
    ensures
        r == if extension(path@) == JXL_EXTENSION@ {
            Decoder::Jxl
        } else {
            Decoder::Generic
        },
{
    let e = extension_string(path);
    if str_eq(e.as_str(), JXL_EXTENSION) {
        Decoder::Jxl
    } else {
        Decoder::Generic
    }
}

/// The transforms that bring an image decoded from `path` upright: none for
/// a format stored upright, otherwise those its declared orientation asks.
pub fn orientation_ops(path: &str, fields: &FieldMap) -> (r: Vec<ImageOp>)
    ensures
        r@ == if extension(path@) == JXL_EXTENSION@ {
            seq![]
        } else {
            ops_of(declared_orientation(fields.view()))
        },
{
    if skips_orientation(path) {
        Vec::new()
    } else {
        Metadata::orientation_for(fields).ops()
    }
}

/// The size an image of `width` by `height` is resized to for a target
/// size: the longer side becomes the target where it exceeds it (an image
/// is never enlarged) and the other side keeps the aspect ratio, rounded
/// down. `None` where either side would be empty.
pub open spec fn resized(width: int, height: int, target: int) -> Option<(int, int)> {
    if width == 0 || height == 0 {
        None
    } else {
        let (w, h) = if width > height {
            let w = if width > target {
                target
            } else {
                width
            };
            (w, w * height / width)
        } else {
            let h = if height > target {
                target
            } else {
                height
            };
            (h * width / height, h)
        };
        if w == 0 || h == 0 {
            None
        } else {
            Some((w, h))
        }
    }
}

pub fn resize_dimensions(width: u32, height: u32, target: u32) -> (r: Option<(u32, u32)>)
    ensures
        match r {
            Some((w, h)) => resized(width as int, height as int, target as int) == Some(
                (w as int, h as int),
            ),
            None => resized(width as int, height as int, target as int) is None,
        },
{
    if width == 0 || height == 0 {
        return None;
    }
    let (w, h): (u64, u64) = if width > height {
        let w: u64 = if width > target {
            target as u64
        } else {
            width as u64
        };
        proof {
            assert(w * (height as u64) <= (u32::MAX as u64) * (u32::MAX as u64)) by (nonlinear_arith)
                requires
                    w <= u32::MAX,
                    height <= u32::MAX,
            ;
            assert((w as int) * (height as int) <= (w as int) * (width as int)) by (nonlinear_arith)
                requires
                    height < width,
                    w >= 0,
            ;
            lemma_div_is_ordered((w as int) * (height as int), (w as int) * (width as int), width as int);
            lemma_div_by_multiple(w as int, width as int);
        }
        (w, w * (height as u64) / (width as u64))
    } else {
        let h: u64 = if height > target {
            target as u64
        } else {
            height as u64
        };
        proof {
            assert(h * (width as u64) <= (u32::MAX as u64) * (u32::MAX as u64)) by (nonlinear_arith)
                requires
                    h <= u32::MAX,
                    width <= u32::MAX,
            ;
            assert((h as int) * (width as int) <= (h as int) * (height as int)) by (nonlinear_arith)
                requires
                    width <= height,
                    h >= 0,
            ;
            lemma_div_is_ordered((h as int) * (width as int), (h as int) * (height as int), height as int);
            lemma_div_by_multiple(h as int, height as int);
        }
        (h * (width as u64) / (height as u64), h)
    };
    if w == 0 || h == 0 {
        None
    } else {
        Some((w as u32, h as u32))
    }
}

/// Pixels of three bytes each, widened to four with an opaque alpha byte;
/// trailing bytes that make no whole pixel are dropped.
pub fn rgb_to_rgba(pixels: &Vec<u8>) -> (r: Vec<u8>)
    ensures
        r@.len() == (pixels@.len() / 3) * 4,
        forall|i: int, j: int|
            0 <= i < pixels@.len() / 3 && 0 <= j < 3 ==> #[trigger] r@[4 * i + j] == pixels@[3 * i + j],
        forall|i: int| 0 <= i < pixels@.len() / 3 ==> #[trigger] r@[4 * i + 3] == 255,
{
    let len = pixels.len();
    let n = len / 3;
    proof {
        vstd::arithmetic::div_mod::lemma_fundamental_div_mod(pixels@.len() as int, 3);
    }
    let mut r: Vec<u8> = Vec::new();
    let mut i: usize = 0;
    while i < n
        invariant
            len == pixels@.len(),
            n == pixels@.len() / 3,
            3 * n <= len,
            i <= n,
            r@.len() == 4 * i,
            forall|a: int, j: int|
                0 <= a < i && 0 <= j < 3 ==> #[trigger] r@[4 * a + j] == pixels@[3 * a + j],
            forall|a: int| 0 <= a < i ==> #[trigger] r@[4 * a + 3] == 255,
        decreases n - i,
    {
        assert(3 * i + 2 < len);
        let k: usize = 3 * i;
        r.push(pixels[k]);
        r.push(pixels[k + 1]);
        r.push(pixels[k + 2]);
        r.push(255);
        i = i + 1;
    }
    r
}

} // verus!
