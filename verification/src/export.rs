//! Export formats and the progress and outcome messages of exports.

use vstd::prelude::*;
use crate::text::{decimal, decimal_string};

verus! {

/// The file formats an edited photo can be exported to.
#[derive(Clone, Copy, PartialEq, Eq, Debug, Structural)]
pub enum ExportFormat {
    Jpeg,
    Png,
    Tiff,
}

impl ExportFormat {
    pub const ALL: [ExportFormat; 3] = [ExportFormat::Jpeg, ExportFormat::Png, ExportFormat::Tiff];

    /// The name shown in the export dialog.
    pub fn label(&self) -> (r: &'static str)
        ensures
            r@ == (match *self {
                ExportFormat::Jpeg => "JPEG"@,
                ExportFormat::Png => "PNG"@,
                ExportFormat::Tiff => "TIFF"@,
            }),
    {
        match self {
            ExportFormat::Jpeg => "JPEG",
            ExportFormat::Png => "PNG",
            ExportFormat::Tiff => "TIFF",
        }
    }

    /// The file extension written.
    pub fn extension(&self) -> (r: &'static str)
        ensures
            r@ == (match *self {
                ExportFormat::Jpeg => "jpg"@,
                ExportFormat::Png => "png"@,
                ExportFormat::Tiff => "tif"@,
            }),
    {
        match self {
            ExportFormat::Jpeg => "jpg",
            ExportFormat::Png => "png",
            ExportFormat::Tiff => "tif",
        }
    }
}

/// Running count of a batch export's outcomes.
#[derive(Clone, Copy, PartialEq, Eq, Debug, Structural)]
pub struct BatchTally {
    pub exported: usize,
    pub failed: usize,
}

impl BatchTally {
    pub fn new() -> (t: BatchTally)
        ensures
            t.exported == 0,
            t.failed == 0,
    {
        BatchTally { exported: 0, failed: 0 }
    }

    /// Count one file's outcome.
    pub fn record(&mut self, ok: bool)
        requires
            old(self).exported + old(self).failed < usize::MAX,
        ensures
            ok ==> final(self).exported == old(self).exported + 1 && final(self).failed == old(
                self,
            ).failed,
            !ok ==> final(self).failed == old(self).failed + 1 && final(self).exported == old(
                self,
            ).exported,
    {
        if ok {
            self.exported += 1;
        } else {
            self.failed += 1;
        }
    }
}

/// The status message when a batch export ends.
pub open spec fn batch_summary_text(exported: nat, failed: nat) -> Seq<char> {
    if failed == 0 {
        "Exported "@ + decimal(exported) + " photos"@
    } else {
        "Exported "@ + decimal(exported) + " photos ("@ + decimal(failed) + " failed)"@
    }
}

/// "Exported N photos", with the failures in brackets when there were any.
pub fn batch_summary(tally: BatchTally) -> (r: String)
    ensures
        r@ == batch_summary_text(tally.exported as nat, tally.failed as nat),
{
    let n = decimal_string(tally.exported);
    let mut s = String::from_str("Exported ");
    s.append(n.as_str());
    if tally.failed == 0 {
        s.append(" photos");
    } else {
        let f = decimal_string(tally.failed);
        s.append(" photos (");
        s.append(f.as_str());
        s.append(" failed)");
    }
    s
}

/// The status message after pasting edits onto every photo of a folder.
pub open spec fn paste_summary_text(count: nat, failed: nat) -> Seq<char> {
    if failed == 0 {
        "Edits applied to "@ + decimal(count) + " photos"@
    } else {
        "Edits applied ("@ + decimal(failed) + " failed)"@
    }
}

/// "Edits applied to N photos", or how many failed.
pub fn paste_summary(count: usize, failed: usize) -> (r: String)
    ensures
        r@ == paste_summary_text(count as nat, failed as nat),
{
    if failed == 0 {
        let mut s = String::from_str("Edits applied to ");
        let n = decimal_string(count);
        s.append(n.as_str());
        s.append(" photos");
        s
    } else {
        let mut s = String::from_str("Edits applied (");
        let f = decimal_string(failed);
        s.append(f.as_str());
        s.append(" failed)");
        s
    }
}

/// The progress bar's text while file `done` (counting from 0) of `total`
/// is exported: "done+1/total".
pub fn progress_text(done: usize, total: usize) -> (r: String)
    requires
        done < usize::MAX,
    ensures
        r@ == decimal((done + 1) as nat) + "/"@ + decimal(total as nat),
{
    let mut s = decimal_string(done + 1);
    s.append("/");
    let t = decimal_string(total);
    s.append(t.as_str());
    s
}

/// The view of an encoding's outcome: the file's bytes, or the text of the
/// encoder's error.
pub open spec fn outcome_view(r: Result<Vec<u8>, String>) -> Result<Seq<u8>, Seq<char>> {
    match r {
        Ok(v) => Ok(v@),
        Err(e) => Err(e@),
    }
}

/// What the `image` crate's JPEG encoder writes for `width` x `height`
/// RGB pixels at `quality`: the file's bytes, or the text of its error.
pub uninterp spec fn jpeg_encoding(pixels: Seq<u8>, width: u32, height: u32, quality: u8) -> Result<
    Seq<u8>,
    Seq<char>,
>;

/// What the `image` crate's PNG encoder (TIFF encoder when `tiff`) writes
/// for `width` x `height` RGB pixels: the file's bytes, or the text of its
/// error.
pub uninterp spec fn lossless_encoding(pixels: Seq<u8>, width: u32, height: u32, tiff: bool) -> Result<
    Seq<u8>,
    Seq<char>,
>;

/// Runs `image::codecs::jpeg::JpegEncoder::new_with_quality(..).encode(..)`
/// on RGB8 pixels into memory. The encoder asserts that the buffer holds
/// exactly three bytes a pixel, hence the `requires`; its output is only
/// named.
#[verifier::external_body]
fn encode_jpeg(pixels: &[u8], width: u32, height: u32, quality: u8) -> (r: Result<Vec<u8>, String>)
    requires
        pixels@.len() == 3 * width * height,
    ensures
        outcome_view(r) == jpeg_encoding(pixels@, width, height, quality),
{
    let mut out: Vec<u8> = Vec::new();
    let done = image::codecs::jpeg::JpegEncoder::new_with_quality(&mut out, quality).encode(
        pixels,
        width,
        height,
        image::ExtendedColorType::Rgb8,
    );
    match done {
        Ok(()) => Ok(out),
        Err(e) => Err(e.to_string()),
    }
}

/// Runs `image::write_buffer_with_format` on RGB8 pixels into memory, with
/// `ImageFormat::Tiff` when `tiff` and `ImageFormat::Png` otherwise. The
/// encoders assert that the buffer holds exactly three bytes a pixel,
/// hence the `requires`; the output is only named.
#[verifier::external_body]
fn encode_lossless(pixels: &[u8], width: u32, height: u32, tiff: bool) -> (r: Result<Vec<u8>, String>)
    requires
        pixels@.len() == 3 * width * height,
    ensures
        outcome_view(r) == lossless_encoding(pixels@, width, height, tiff),
{
    let format = if tiff { image::ImageFormat::Tiff } else { image::ImageFormat::Png };
    let mut out: Vec<u8> = Vec::new();
    let rgb = image::ExtendedColorType::Rgb8;
    let done = image::write_buffer_with_format(
        &mut std::io::Cursor::new(&mut out),
        pixels,
        width,
        height,
        rgb,
        format,
    );
    match done {
        Ok(()) => Ok(out),
        Err(e) => Err(e.to_string()),
    }
}

/// The file `format`'s encoder makes of `width` x `height` RGB pixels.
pub open spec fn encoding(
    format: ExportFormat,
    pixels: Seq<u8>,
    width: u32,
    height: u32,
    jpeg_quality: u8,
) -> Result<Seq<u8>, Seq<char>> {
    match format {
        ExportFormat::Jpeg => jpeg_encoding(pixels, width, height, jpeg_quality),
        ExportFormat::Png => lossless_encoding(pixels, width, height, false),
        ExportFormat::Tiff => lossless_encoding(pixels, width, height, true),
    }
}

/// The error when the pixel buffer is too short for the image size.
pub open spec fn short_buffer_text() -> Seq<char> {
    "failed to build output image buffer"@
}

/// Encode a rendered photo of `width` x `height` pixels, three bytes a
/// pixel row by row, as a `format` file (JPEG at `jpeg_quality`). A buffer
/// too short for the size is refused; bytes past the image are ignored.
pub fn encode(pixels: &[u8], width: u32, height: u32, format: ExportFormat, jpeg_quality: u8) -> (r:
    Result<Vec<u8>, String>)
    ensures
        pixels@.len() < 3 * width * height ==> outcome_view(r) == Err::<Seq<u8>, Seq<char>>(
            short_buffer_text(),
        ),
        pixels@.len() >= 3 * width * height ==> outcome_view(r) == encoding(
            format,
            pixels@.subrange(0, 3 * width * height),
            width,
            height,
            jpeg_quality,
        ),
{
    let w: u128 = width as u128;
    let h: u128 = height as u128;
    proof {
        assert(w * h <= 0xffff_ffff * 0xffff_ffff) by (nonlinear_arith)
            requires
                w <= 0xffff_ffff,
                h <= 0xffff_ffff,
        ;
    }
    let needed: u128 = 3 * (w * h);
    assert(needed == 3 * width * height) by (nonlinear_arith)
        requires
            needed == 3 * (w * h),
            w == width,
            h == height,
    ;
    if (pixels.len() as u128) < needed {
        let msg = String::from_str("failed to build output image buffer");
        proof {
            reveal_strlit("failed to build output image buffer");
        }
        return Err(msg);
    }
    let (image, _) = pixels.split_at(needed as usize);
    match format {
        ExportFormat::Jpeg => encode_jpeg(image, width, height, jpeg_quality),
        ExportFormat::Png => encode_lossless(image, width, height, false),
        ExportFormat::Tiff => encode_lossless(image, width, height, true),
    }
}

} // verus!
