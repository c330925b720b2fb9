//! EXIF information for the info panel: which tags are shown, in what order,
//! and how raw tag values are tidied for display.

use vstd::prelude::*;
use crate::text::{chars_of, clean, cleaned, decimal, decimal_string, starts_with};

verus! {

/// What is known of a photo's capture, each field a display-ready value.
#[derive(Clone)]
pub struct ExifInfo {
    pub camera: Option<String>,
    pub lens: Option<String>,
    pub focal_length: Option<String>,
    pub aperture: Option<String>,
    pub shutter: Option<String>,
    pub iso: Option<String>,
    pub date: Option<String>,
    pub dimensions: Option<String>,
}

/// The text of an optional value.
pub open spec fn text_of(v: Option<String>) -> Option<Seq<char>> {
    match v {
        Some(s) => Some(s@),
        Option::None => Option::None,
    }
}

/// `rows` followed by `(label, value)` when there is a value.
pub open spec fn with_row(rows: Seq<(Seq<char>, Seq<char>)>, label: Seq<char>, v: Option<String>) -> Seq<
    (Seq<char>, Seq<char>),
> {
    match v {
        Some(s) => rows.push((label, s@)),
        Option::None => rows,
    }
}

/// The rows the info panel shows for `e`, in display order, skipping
/// missing fields.
pub open spec fn display_rows(e: ExifInfo) -> Seq<(Seq<char>, Seq<char>)> {
    let r = Seq::<(Seq<char>, Seq<char>)>::empty();
    let r = with_row(r, "Camera"@, e.camera);
    let r = with_row(r, "Lens"@, e.lens);
    let r = with_row(r, "Focal length"@, e.focal_length);
    let r = with_row(r, "Aperture"@, e.aperture);
    let r = with_row(r, "Shutter"@, e.shutter);
    let r = with_row(r, "ISO"@, e.iso);
    let r = with_row(r, "Dimensions"@, e.dimensions);
    with_row(r, "Date"@, e.date)
}

/// The text of each row's label and value.
pub open spec fn row_texts(rows: Seq<(&'static str, String)>) -> Seq<(Seq<char>, Seq<char>)> {
    rows.map_values(|row: (&'static str, String)| (row.0@, row.1@))
}

fn push_row(rows: &mut Vec<(&'static str, String)>, label: &'static str, v: &Option<String>)
    ensures
        row_texts(final(rows)@) == with_row(row_texts(old(rows)@), label@, *v),
{
    if let Some(val) = v {
        rows.push((label, val.clone()));
        proof {
            assert(row_texts(rows@) =~= row_texts(old(rows)@).push((label@, val@)));
        }
    }
}

/// The camera name from the Make and Model tags: the model alone when it
/// already starts with the make, otherwise "make model".
pub open spec fn camera_name(make: Option<Seq<char>>, model: Option<Seq<char>>) -> Option<Seq<char>> {
    match (make, model) {
        (Some(mk), Some(md)) => if mk.len() <= md.len() && md.subrange(0, mk.len() as int) == mk {
            Some(md)
        } else {
            Some(mk + " "@ + md)
        },
        (Option::None, Some(md)) => Some(md),
        (Some(mk), Option::None) => Some(mk),
        (Option::None, Option::None) => Option::None,
    }
}

/// Apply `f` to an optional text.
pub open spec fn map_text(v: Option<Seq<char>>, f: spec_fn(Seq<char>) -> Seq<char>) -> Option<Seq<char>> {
    match v {
        Some(s) => Some(f(s)),
        Option::None => Option::None,
    }
}

/// An aperture as shown: "f/" put in front unless it already starts with `f`.
pub open spec fn aperture_text(f: Seq<char>) -> Seq<char> {
    if f.len() > 0 && f[0] == 'f' {
        f
    } else {
        "f/"@ + f
    }
}

/// `e` is the record built from these raw tag texts: each trimmed of
/// quotes and white space, make and model merged into the camera name, the
/// aperture, shutter and ISO given their prefix or suffix, the dimensions
/// left unknown.
pub open spec fn tidied(
    e: ExifInfo,
    make: Option<Seq<char>>,
    model: Option<Seq<char>>,
    lens: Option<Seq<char>>,
    focal_length: Option<Seq<char>>,
    f_number: Option<Seq<char>>,
    exposure_time: Option<Seq<char>>,
    iso: Option<Seq<char>>,
    date: Option<Seq<char>>,
) -> bool {
    &&& text_of(e.camera) == camera_name(
        map_text(make, |s: Seq<char>| cleaned(s)),
        map_text(model, |s: Seq<char>| cleaned(s)),
    )
    &&& text_of(e.lens) == map_text(lens, |s: Seq<char>| cleaned(s))
    &&& text_of(e.focal_length) == map_text(focal_length, |s: Seq<char>| cleaned(s))
    &&& text_of(e.aperture) == map_text(f_number, |s: Seq<char>| aperture_text(cleaned(s)))
    &&& text_of(e.shutter) == map_text(exposure_time, |s: Seq<char>| cleaned(s) + " s"@)
    &&& text_of(e.iso) == map_text(iso, |s: Seq<char>| "ISO "@ + cleaned(s))
    &&& text_of(e.date) == map_text(date, |s: Seq<char>| cleaned(s))
    &&& e.dimensions is None
}

/// The EXIF tags the info panel reads.
#[derive(Clone, Copy, PartialEq, Eq, Debug, Structural)]
pub enum ExifTag {
    Make,
    Model,
    LensModel,
    FocalLength,
    FNumber,
    ExposureTime,
    PhotographicSensitivity,
    DateTimeOriginal,
}

/// The text kamadak-exif shows, with its unit, for `tag` of the primary
/// image, in the EXIF block it finds in `container` (the bytes of an image
/// file); `None` when it finds no block, cannot parse it, or the tag is
/// absent.
pub uninterp spec fn exif_tag_text(container: Seq<u8>, tag: ExifTag) -> Option<Seq<char>>;

/// Calls kamadak-exif's `Reader::read_from_container` on the bytes, then
/// `Exif::get_field` for the tag in the primary image and renders the
/// field with `display_value().with_unit(..)`. What that text is, is only
/// named (`exif_tag_text`): it depends on the bytes and the tag alone.
#[verifier::external_body]
fn read_tag_text(container: &[u8], tag: ExifTag) -> (r: Option<String>)
    ensures
        text_of(r) == exif_tag_text(container@, tag),
{
    let t = match tag {
        ExifTag::Make => exif::Tag::Make,
        ExifTag::Model => exif::Tag::Model,
        ExifTag::LensModel => exif::Tag::LensModel,
        ExifTag::FocalLength => exif::Tag::FocalLength,
        ExifTag::FNumber => exif::Tag::FNumber,
        ExifTag::ExposureTime => exif::Tag::ExposureTime,
        ExifTag::PhotographicSensitivity => exif::Tag::PhotographicSensitivity,
        ExifTag::DateTimeOriginal => exif::Tag::DateTimeOriginal,
    };
    let exif = exif::Reader::new().read_from_container(&mut std::io::Cursor::new(container)).ok()?;
    let field = exif.get_field(t, exif::In::PRIMARY)?;
    Some(field.display_value().with_unit(&exif).to_string())
}

/// The capture record of an image file, from the file's bytes: the EXIF
/// tags read and tidied as `ExifInfo::from_tags` does. A file without a
/// readable EXIF block gives the empty record.
pub fn read(container: &[u8]) -> (e: ExifInfo)
    ensures
        tidied(
            e,
            exif_tag_text(container@, ExifTag::Make),
            exif_tag_text(container@, ExifTag::Model),
            exif_tag_text(container@, ExifTag::LensModel),
            exif_tag_text(container@, ExifTag::FocalLength),
            exif_tag_text(container@, ExifTag::FNumber),
            exif_tag_text(container@, ExifTag::ExposureTime),
            exif_tag_text(container@, ExifTag::PhotographicSensitivity),
            exif_tag_text(container@, ExifTag::DateTimeOriginal),
        ),
{
    ExifInfo::from_tags(
        read_tag_text(container, ExifTag::Make),
        read_tag_text(container, ExifTag::Model),
        read_tag_text(container, ExifTag::LensModel),
        read_tag_text(container, ExifTag::FocalLength),
        read_tag_text(container, ExifTag::FNumber),
        read_tag_text(container, ExifTag::ExposureTime),
        read_tag_text(container, ExifTag::PhotographicSensitivity),
        read_tag_text(container, ExifTag::DateTimeOriginal),
    )
}

fn cleaned_opt(v: &Option<String>) -> (r: Option<String>)
    ensures
        text_of(r) == map_text(text_of(*v), |s: Seq<char>| cleaned(s)),
{
    match v {
        Some(s) => Some(clean(s.as_str())),
        None => None,
    }
}

fn concat3(a: &str, b: &str, c: &str) -> (r: String)
    ensures
        r@ == a@ + b@ + c@,
{
    let mut s = String::from_str(a);
    s.append(b);
    s.append(c);
    s
}

impl Default for ExifInfo {
    /// A record with nothing known.
    fn default() -> (e: ExifInfo)
        ensures
            e.camera is None,
            e.lens is None,
            e.focal_length is None,
            e.aperture is None,
            e.shutter is None,
            e.iso is None,
            e.date is None,
            e.dimensions is None,
    {
        ExifInfo {
            camera: None,
            lens: None,
            focal_length: None,
            aperture: None,
            shutter: None,
            iso: None,
            date: None,
            dimensions: None,
        }
    }
}

impl ExifInfo {
    /// True when no capture field is known (the pixel dimensions, which the
    /// decoder always provides, do not count).
    pub fn is_empty(&self) -> (r: bool)
        ensures
            r == (self.camera is None && self.lens is None && self.focal_length is None
                && self.aperture is None && self.shutter is None && self.iso is None
                && self.date is None),
    {
        self.camera.is_none() && self.lens.is_none() && self.focal_length.is_none()
            && self.aperture.is_none() && self.shutter.is_none() && self.iso.is_none()
            && self.date.is_none()
    }

    /// Rows of (label, value) for display, skipping missing fields.
    pub fn rows(&self) -> (r: Vec<(&'static str, String)>)
        ensures
            row_texts(r@) == display_rows(*self),
    {
        let mut rows: Vec<(&'static str, String)> = Vec::new();
        proof {
            assert(row_texts(rows@) =~= Seq::<(Seq<char>, Seq<char>)>::empty());
        }
        push_row(&mut rows, "Camera", &self.camera);
        push_row(&mut rows, "Lens", &self.lens);
        push_row(&mut rows, "Focal length", &self.focal_length);
        push_row(&mut rows, "Aperture", &self.aperture);
        push_row(&mut rows, "Shutter", &self.shutter);
        push_row(&mut rows, "ISO", &self.iso);
        push_row(&mut rows, "Dimensions", &self.dimensions);
        push_row(&mut rows, "Date", &self.date);
        rows
    }

    /// Build the record from raw tag values as the EXIF reader renders them
    /// (with units): every value has surrounding quotes and white space
    /// stripped; make and model merge into one camera name; the aperture
    /// gains an "f/" prefix, the shutter a " s" suffix, the ISO an "ISO "
    /// prefix. The dimensions are left unknown.
    pub fn from_tags(
        make: Option<String>,
        model: Option<String>,
        lens: Option<String>,
        focal_length: Option<String>,
        f_number: Option<String>,
        exposure_time: Option<String>,
        iso: Option<String>,
        date: Option<String>,
    ) -> (e: ExifInfo)
        ensures
            tidied(
                e,
                text_of(make),
                text_of(model),
                text_of(lens),
                text_of(focal_length),
                text_of(f_number),
                text_of(exposure_time),
                text_of(iso),
                text_of(date),
            ),
    {
        let mk = cleaned_opt(&make);
        let md = cleaned_opt(&model);
        let camera = match (mk, md) {
            (Some(mk), Some(md)) => {
                if starts_with(md.as_str(), mk.as_str()) {
                    Some(md)
                } else {
                    Some(concat3(mk.as_str(), " ", md.as_str()))
                }
            },
            (None, Some(md)) => Some(md),
            (Some(mk), None) => Some(mk),
            (None, None) => None,
        };
        let aperture = match cleaned_opt(&f_number) {
            Some(f) => {
                let cs = chars_of(f.as_str());
                if cs.len() > 0 && cs[0] == 'f' {
                    Some(f)
                } else {
                    Some(concat3("f/", f.as_str(), ""))
                }
            },
            None => None,
        };
        let shutter = match cleaned_opt(&exposure_time) {
            Some(s) => Some(concat3(s.as_str(), " s", "")),
            None => None,
        };
        let iso_text = match cleaned_opt(&iso) {
            Some(s) => Some(concat3("ISO ", s.as_str(), "")),
            None => None,
        };
        proof {
            assert(""@ =~= Seq::<char>::empty()) by {
                reveal_strlit("");
            }
        }
        ExifInfo {
            camera,
            lens: cleaned_opt(&lens),
            focal_length: cleaned_opt(&focal_length),
            aperture,
            shutter,
            iso: iso_text,
            date: cleaned_opt(&date),
            dimensions: None,
        }
    }
}

/// The label for a photo's pixel dimensions: "width × height".
pub fn dimensions_label(width: usize, height: usize) -> (r: String)
    ensures
        r@ == decimal(width as nat) + " × "@ + decimal(height as nat),
{
    let w = decimal_string(width);
    let h = decimal_string(height);
    concat3(w.as_str(), " × ", h.as_str())
}

} // verus!
