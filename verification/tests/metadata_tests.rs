use photo_editor::metadata::{dimensions_label, read, ExifInfo};

fn some(s: &str) -> Option<String> {
    Some(s.to_string())
}

#[test]
fn default_is_empty() {
    let e = ExifInfo::default();
    assert!(e.is_empty());
    assert!(e.rows().is_empty());
}

#[test]
fn dimensions_alone_leave_the_record_empty() {
    let mut e = ExifInfo::default();
    e.dimensions = some("6000 × 4000");
    assert!(e.is_empty());
    assert_eq!(e.rows(), vec![("Dimensions", "6000 × 4000".to_string())]);
}

#[test]
fn rows_come_in_display_order() {
    let e = ExifInfo {
        camera: some("Canon EOS R5"),
        lens: None,
        focal_length: some("50 mm"),
        aperture: some("f/1.8"),
        shutter: None,
        iso: some("ISO 100"),
        date: some("2024-05-01 10:00:00"),
        dimensions: some("10 × 20"),
    };
    assert!(!e.is_empty());
    let rows = e.rows();
    let labels: Vec<&str> = rows.iter().map(|r| r.0).collect();
    assert_eq!(labels, vec!["Camera", "Focal length", "Aperture", "ISO", "Dimensions", "Date"]);
    assert_eq!(rows[0].1, "Canon EOS R5");
}

#[test]
fn tags_are_tidied() {
    let e = ExifInfo::from_tags(
        some("\"Canon\""),
        some("\"Canon EOS R5\""),
        some(" RF50mm F1.8 STM "),
        some("50 mm"),
        some("1.8"),
        some("1/250"),
        some("100"),
        some("\"2024-05-01 10:00:00\""),
    );
    assert_eq!(e.camera, some("Canon EOS R5"));
    assert_eq!(e.lens, some("RF50mm F1.8 STM"));
    assert_eq!(e.focal_length, some("50 mm"));
    assert_eq!(e.aperture, some("f/1.8"));
    assert_eq!(e.shutter, some("1/250 s"));
    assert_eq!(e.iso, some("ISO 100"));
    assert_eq!(e.date, some("2024-05-01 10:00:00"));
    assert_eq!(e.dimensions, None);
}

#[test]
fn make_and_model_merge() {
    let e = ExifInfo::from_tags(some("NIKON"), some("Z 6"), None, None, some("f/4"), None, None, None);
    assert_eq!(e.camera, some("NIKON Z 6"));
    assert_eq!(e.aperture, some("f/4"));
    let e = ExifInfo::from_tags(None, some("X100V"), None, None, None, None, None, None);
    assert_eq!(e.camera, some("X100V"));
    let e = ExifInfo::from_tags(some("FUJIFILM"), None, None, None, None, None, None, None);
    assert_eq!(e.camera, some("FUJIFILM"));
    let e = ExifInfo::from_tags(None, None, None, None, None, None, None, None);
    assert!(e.is_empty());
}

#[test]
fn dimensions_label_reads_width_by_height() {
    assert_eq!(dimensions_label(6000, 4000), "6000 × 4000");
    assert_eq!(dimensions_label(0, 7), "0 × 7");
}

/// A little-endian TIFF holding IFD0 with Make and Model.
fn tiff_with_make_and_model() -> Vec<u8> {
    let make = b"Canon\0";
    let model = b"Canon EOS R5\0";
    let data_start: u32 = 8 + 2 + 2 * 12 + 4;
    let mut b: Vec<u8> = vec![0x49, 0x49, 0x2a, 0x00, 0x08, 0x00, 0x00, 0x00];
    b.extend_from_slice(&2u16.to_le_bytes());
    for (tag, text, offset) in [
        (0x010fu16, &make[..], data_start),
        (0x0110u16, &model[..], data_start + make.len() as u32),
    ] {
        b.extend_from_slice(&tag.to_le_bytes());
        b.extend_from_slice(&2u16.to_le_bytes());
        b.extend_from_slice(&(text.len() as u32).to_le_bytes());
        b.extend_from_slice(&offset.to_le_bytes());
    }
    b.extend_from_slice(&0u32.to_le_bytes());
    b.extend_from_slice(make);
    b.extend_from_slice(model);
    b
}

#[test]
fn read_finds_the_camera_in_exif_bytes() {
    let e = read(&tiff_with_make_and_model());
    assert_eq!(e.camera, some("Canon EOS R5"));
    assert_eq!(e.lens, None);
    assert_eq!(e.iso, None);
    assert!(!e.is_empty());
}

#[test]
fn read_of_bytes_without_exif_is_empty() {
    assert!(read(b"not an image at all").is_empty());
    assert!(read(&[]).is_empty());
}
