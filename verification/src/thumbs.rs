//! Filmstrip thumbnails: which decoder makes a photo's thumbnail. Standard
//! image files are decoded and scaled with the `image` crate, by the format
//! their extension names; camera RAW files take the preview the program
//! pulls out of them with `rawler`.

use vstd::prelude::*;
use crate::paths::{has_stable_ext, is_plain_path, is_raw, photo_extension, raw_exts, ext_listed};
use crate::paths::{is_slash_path, name_listed, slash_ext, slash_name};
use crate::paths::{extension_of, final_component, stable_ext};
use crate::ui::{Thumb, THUMB_EDGE};

verus! {

/// Width, height and RGBA bytes of a thumbnail, as plain values.
pub type Pixels = (u32, u32, Vec<u8>);

/// The view of an optional thumbnail.
pub open spec fn pixels_view(p: Option<Pixels>) -> Option<(u32, u32, Seq<u8>)> {
    match p {
        Some(t) => Some((t.0, t.1, t.2@)),
        Option::None => Option::None,
    }
}

/// An RGBA image of `w` x `h` pixels holds four bytes a pixel.
pub open spec fn rgba_sized(p: Option<(u32, u32, Seq<u8>)>) -> bool {
    p matches Some(t) ==> t.2.len() == 4 * t.0 * t.1
}

/// The thumbnail, fitting in `edge` x `edge`, that the `image` crate makes
/// from a file's bytes decoded as the format its extension `ext` names;
/// `None` when the extension names no format or the bytes do not decode.
pub uninterp spec fn image_thumbnail(bytes: Seq<u8>, ext: Seq<char>, edge: u32) -> Option<
    (u32, u32, Seq<u8>),
>;

/// Picks the format with `ImageFormat::from_extension` (as `image::open`
/// does for a path), decodes with `image::load_from_memory_with_format`,
/// scales with `DynamicImage::thumbnail` and converts with `to_rgba8`. The
/// pixels are only named; the RGBA buffer holds four bytes a pixel, as
/// `to_rgba8` builds it.
#[verifier::external_body]
fn decode_thumbnail(bytes: &[u8], ext: &str, edge: u32) -> (r: Option<Pixels>)
    ensures
        pixels_view(r) == image_thumbnail(bytes@, ext@, edge),
        rgba_sized(pixels_view(r)),
{
    let format = image::ImageFormat::from_extension(ext)?;
    let img = image::load_from_memory_with_format(bytes, format).ok()?;
    let small = img.thumbnail(edge, edge).to_rgba8();
    Some((small.width(), small.height(), small.into_raw()))
}

/// The pixels a thumbnail holds.
pub open spec fn thumb_pixels(t: Option<Thumb>) -> Option<(u32, u32, Seq<u8>)> {
    match t {
        Some(t) => Some((t.width as u32, t.height as u32, t.rgba@)),
        Option::None => Option::None,
    }
}

/// The thumbnail pixels of a standard image file, by its extension.
pub open spec fn image_pixels(ext: Option<Seq<char>>, bytes: Seq<u8>) -> Option<(u32, u32, Seq<u8>)> {
    match ext {
        Some(e) => image_thumbnail(bytes, e, THUMB_EDGE),
        Option::None => Option::None,
    }
}

/// What the thumbnail of a photo holds: for a RAW file the RAW preview
/// when it is a well-formed RGBA image, for other files the `image`
/// decode of its bytes.
pub open spec fn thumbnail_pixels(
    raw: bool,
    ext: Option<Seq<char>>,
    bytes: Seq<u8>,
    raw_pixels: Option<(u32, u32, Seq<u8>)>,
) -> Option<(u32, u32, Seq<u8>)> {
    if raw {
        if rgba_sized(raw_pixels) {
            raw_pixels
        } else {
            Option::None
        }
    } else {
        image_pixels(ext, bytes)
    }
}

/// The filmstrip thumbnail of the photo at `path`, whose file holds
/// `bytes`. Camera RAW files (by extension) take `raw_pixels`, the preview
/// pulled out of the file with `rawler` (its embedded thumbnail, else its
/// embedded preview, else a full develop); other files are decoded with the
/// `image` crate as the format their extension names, and scaled to fit
/// `THUMB_EDGE`. `None` when nothing could be decoded.
pub fn make_thumb(path: &str, bytes: &[u8], raw_pixels: Option<Pixels>) -> (r: Option<Thumb>)
    ensures
        r matches Some(t) ==> t.path@ == path@ && t.width <= u32::MAX && t.height <= u32::MAX
            && t.rgba@.len() == 4 * t.width * t.height,
        is_plain_path(path@) ==> thumb_pixels(r) == thumbnail_pixels(
            ext_listed(path@, raw_exts()),
            extension_of(final_component(path@)),
            bytes@,
            pixels_view(raw_pixels),
        ),
        is_slash_path(path@) ==> thumb_pixels(r) == thumbnail_pixels(
            name_listed(slash_name(path@), raw_exts()),
            slash_ext(path@),
            bytes@,
            pixels_view(raw_pixels),
        ),
        has_stable_ext(path@) && !is_slash_path(path@) ==> thumb_pixels(r) == thumbnail_pixels(
            ext_listed_stable(path@),
            stable_ext(path@),
            bytes@,
            pixels_view(raw_pixels),
        ),
{
    let raw = is_raw(path);
    let pixels = if raw {
        match raw_pixels {
            Some((w, h, rgba)) => {
                let wl: u128 = w as u128;
                let hl: u128 = h as u128;
                assert(wl * hl <= 0xffff_ffff * 0xffff_ffff) by (nonlinear_arith)
                    requires
                        wl <= 0xffff_ffff,
                        hl <= 0xffff_ffff,
                ;
                let area: u128 = wl * hl;
                assert(area == w * h) by (nonlinear_arith)
                    requires
                        area == wl * hl,
                        wl == w,
                        hl == h,
                ;
                if (rgba.len() as u128) == 4 * area {
                    assert(rgba@.len() == 4 * w * h) by (nonlinear_arith)
                        requires
                            rgba@.len() == 4 * area,
                            area == w * h,
                    ;
                    Some((w, h, rgba))
                } else {
                    assert(rgba@.len() != 4 * w * h) by (nonlinear_arith)
                        requires
                            rgba@.len() != 4 * area,
                            area == w * h,
                    ;
                    None
                }
            },
            None => None,
        }
    } else {
        match photo_extension(path) {
            Some(ext) => decode_thumbnail(bytes, ext.as_str(), THUMB_EDGE),
            None => None,
        }
    };
    assert(rgba_sized(pixels_view(pixels)));
    assert(is_plain_path(path@) ==> pixels_view(pixels) == thumbnail_pixels(
        raw,
        extension_of(final_component(path@)),
        bytes@,
        pixels_view(raw_pixels),
    ));
    assert(has_stable_ext(path@) && !is_slash_path(path@) ==> pixels_view(pixels)
        == thumbnail_pixels(raw, stable_ext(path@), bytes@, pixels_view(raw_pixels)));
    assert(is_slash_path(path@) ==> pixels_view(pixels) == thumbnail_pixels(
        raw,
        slash_ext(path@),
        bytes@,
        pixels_view(raw_pixels),
    ));
    match pixels {
        Some((w, h, rgba)) => Some(
            Thumb { path: String::from_str(path), width: w as usize, height: h as usize, rgba },
        ),
        None => None,
    }
}

/// Whether a path with a stable extension names a RAW file.
pub open spec fn ext_listed_stable(p: Seq<char>) -> bool {
    crate::paths::stable_listed(p, raw_exts())
}

} // verus!
