//! Pictures: decoding the screen capture the device sends and the built-in
//! template pictures, and cutting a part out of a picture.

use vstd::prelude::*;
use image::DynamicImage;
use crate::device::{png_start, png_start_spec};
use crate::geometry::Region;

verus! {

/// A decoded picture of the `image` crate; opaque here.
#[verifier::external_type_specification]
#[verifier::external_body]
pub struct ExDynamicImage(image::DynamicImage);

/// Whether `image::load_from_memory` decodes `bytes` (of a format it
/// recognises from the bytes themselves).
pub uninterp spec fn decodes(bytes: Seq<u8>) -> bool;

/// Whether `image::load_from_memory_with_format` decodes `bytes` as PNG.
pub uninterp spec fn decodes_png(bytes: Seq<u8>) -> bool;

/// `image::load_from_memory`: the picture that `bytes` hold, of whichever
/// format the bytes show. Claimed: it succeeds exactly when [`decodes`]
/// says so; what picture comes out is not restated here, as the decoders
/// of the `image` crate define it.
#[verifier::external_body]
pub fn load_picture(bytes: &[u8]) -> (r: Option<DynamicImage>)
    ensures
        r.is_some() == decodes(bytes@),
{
    image::load_from_memory(bytes).ok()
}

/// `image::load_from_memory_with_format` with PNG: the PNG picture that
/// `bytes` hold. Claimed: it succeeds exactly when [`decodes_png`] says so;
/// the picture itself is not restated here.
#[verifier::external_body]
pub fn load_png(bytes: &[u8]) -> (r: Option<DynamicImage>)
    ensures
        r.is_some() == decodes_png(bytes@),
{
    image::load_from_memory_with_format(bytes, image::ImageFormat::Png).ok()
}

/// `DynamicImage::crop_imm`, then `to_rgb8`: the part of `img` that
/// `region` covers (clamped to the picture), as 8-bit RGB. Nothing is
/// claimed of the result: a picture is opaque here, and what it holds has
/// no name over plain values. A negative corner or size is taken as the
/// `u32` of the same bits, as the call is made; the call clamps and does
/// not panic.
#[verifier::external_body]
pub fn crop_picture(img: &DynamicImage, region: &Region) -> (r: DynamicImage) {
    DynamicImage::ImageRgb8(
        img.crop_imm(region.left as u32, region.top as u32, region.width as u32, region.height as u32).to_rgb8(),
    )
}

/// The picture of a screen capture as the device sends it: what comes
/// before the PNG signature is skipped (nothing when there is none), and
/// the rest is decoded.
pub fn decode_screencap(raw: &[u8]) -> (r: Option<DynamicImage>)
    ensures
        exists|s: int|
            png_start_spec(raw@, s) && 0 <= s <= raw@.len() && r.is_some() == decodes(
                raw@.subrange(s, raw@.len() as int),
            ),
{
    let s = png_start(raw);
    proof {
        if exists|i: int| #[trigger] crate::device::png_magic_at(raw@, i) {
            assert(crate::device::png_magic_at(raw@, s as int));
        }
    }
    let tail = vstd::slice::slice_subrange(raw, s, raw.len());
    let r = load_picture(tail);
    assert(png_start_spec(raw@, s as int));
    r
}

} // verus!
