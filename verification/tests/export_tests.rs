use photo_editor::export::{batch_summary, encode, paste_summary, progress_text, BatchTally, ExportFormat};

#[test]
fn formats_have_labels_and_extensions() {
    let labels: Vec<&str> = ExportFormat::ALL.iter().map(|f| f.label()).collect();
    assert_eq!(labels, vec!["JPEG", "PNG", "TIFF"]);
    let exts: Vec<&str> = ExportFormat::ALL.iter().map(|f| f.extension()).collect();
    assert_eq!(exts, vec!["jpg", "png", "tif"]);
}

#[test]
fn batch_tally_and_summary() {
    let mut t = BatchTally::new();
    assert_eq!(batch_summary(t), "Exported 0 photos");
    t.record(true);
    t.record(true);
    t.record(true);
    assert_eq!((t.exported, t.failed), (3, 0));
    assert_eq!(batch_summary(t), "Exported 3 photos");
    t.record(false);
    assert_eq!((t.exported, t.failed), (3, 1));
    assert_eq!(batch_summary(t), "Exported 3 photos (1 failed)");
}

#[test]
fn paste_summary_reports_failures() {
    assert_eq!(paste_summary(12, 0), "Edits applied to 12 photos");
    assert_eq!(paste_summary(12, 2), "Edits applied (2 failed)");
}

#[test]
fn progress_counts_from_one() {
    assert_eq!(progress_text(0, 10), "1/10");
    assert_eq!(progress_text(9, 10), "10/10");
}

fn gradient(w: usize, h: usize) -> Vec<u8> {
    let mut v = Vec::new();
    for y in 0..h {
        for x in 0..w {
            v.extend_from_slice(&[(x * 40) as u8, (y * 60) as u8, 128]);
        }
    }
    v
}

#[test]
fn png_export_round_trips() {
    let pixels = gradient(3, 2);
    let bytes = encode(&pixels, 3, 2, ExportFormat::Png, 90).unwrap();
    assert_eq!(&bytes[1..4], b"PNG");
    let back = image::load_from_memory(&bytes).unwrap().to_rgb8();
    assert_eq!((back.width(), back.height()), (3, 2));
    assert_eq!(back.into_raw(), pixels);
}

#[test]
fn tiff_export_round_trips() {
    let pixels = gradient(4, 3);
    let bytes = encode(&pixels, 4, 3, ExportFormat::Tiff, 90).unwrap();
    assert_eq!(&bytes[0..2], b"II");
    let back = image::load_from_memory(&bytes).unwrap().to_rgb8();
    assert_eq!(back.into_raw(), pixels);
}

#[test]
fn jpeg_export_is_a_jpeg_of_the_right_size() {
    let pixels = gradient(5, 4);
    let bytes = encode(&pixels, 5, 4, ExportFormat::Jpeg, 95).unwrap();
    assert_eq!(&bytes[0..2], &[0xff, 0xd8]);
    let back = image::load_from_memory(&bytes).unwrap();
    assert_eq!((back.width(), back.height()), (5, 4));
}

#[test]
fn export_ignores_bytes_past_the_image() {
    let mut pixels = gradient(2, 2);
    let exact = encode(&pixels, 2, 2, ExportFormat::Png, 90).unwrap();
    pixels.extend_from_slice(&[1, 2, 3]);
    assert_eq!(encode(&pixels, 2, 2, ExportFormat::Png, 90).unwrap(), exact);
}

#[test]
fn a_short_buffer_is_refused() {
    let pixels = vec![0u8; 5];
    assert_eq!(
        encode(&pixels, 2, 1, ExportFormat::Jpeg, 90),
        Err("failed to build output image buffer".to_string())
    );
}

#[test]
fn an_empty_jpeg_is_an_encoder_error() {
    let r = encode(&[], 0, 0, ExportFormat::Jpeg, 90);
    assert!(r.is_err());
    assert_ne!(r, Err("failed to build output image buffer".to_string()));
}
