use photo_editor::thumbs::make_thumb;
use photo_editor::ui::THUMB_EDGE;

fn png_of(w: u32, h: u32) -> Vec<u8> {
    let img = image::RgbaImage::from_fn(w, h, |x, y| image::Rgba([(x % 256) as u8, (y % 256) as u8, 90, 255]));
    let mut out = Vec::new();
    img.write_to(&mut std::io::Cursor::new(&mut out), image::ImageFormat::Png).unwrap();
    out
}

#[test]
fn a_large_photo_is_scaled_to_fit_the_thumbnail_edge() {
    let t = make_thumb("/pics/wide.png", &png_of(400, 200), None).unwrap();
    assert_eq!(t.path, "/pics/wide.png");
    assert_eq!((t.width, t.height), (THUMB_EDGE as usize, THUMB_EDGE as usize / 2));
    assert_eq!(t.rgba.len(), t.width * t.height * 4);
}

#[test]
fn a_tall_photo_fits_the_edge_by_its_height() {
    let t = make_thumb("/pics/tall.PNG", &png_of(100, 400), None).unwrap();
    assert_eq!((t.width, t.height), (48, 192));
    assert_eq!(t.rgba.len(), 48 * 192 * 4);
    assert_eq!(t.rgba[3], 255);
}

#[test]
fn undecodable_files_give_no_thumbnail() {
    assert!(make_thumb("/pics/broken.jpg", b"not a jpeg", None).is_none());
    assert!(make_thumb("/pics/broken.CR3", b"not a raw file", None).is_none());
}

#[test]
fn the_decoder_follows_the_extension() {
    // PNG bytes under a JPEG name do not decode, as with `image::open`.
    assert!(make_thumb("/pics/mislabelled.jpg", &png_of(20, 20), None).is_none());
    assert!(make_thumb("/pics/noext", &png_of(20, 20), None).is_none());
    assert!(make_thumb(r"C:\pics\a.png", &png_of(20, 20), None).is_some());
}

#[test]
fn raw_files_take_the_raw_preview() {
    let preview = (2u32, 1u32, vec![1u8, 2, 3, 4, 5, 6, 7, 8]);
    let t = make_thumb("/pics/a.NEF", b"ignored", Some(preview)).unwrap();
    assert_eq!((t.width, t.height), (2, 1));
    assert_eq!(t.rgba, vec![1, 2, 3, 4, 5, 6, 7, 8]);
    // A preview whose buffer does not match its size is dropped.
    assert!(make_thumb("/pics/a.NEF", b"", Some((2, 2, vec![0u8; 4]))).is_none());
    // A standard image ignores any RAW preview handed in.
    let t = make_thumb("/pics/b.png", &png_of(10, 10), Some((1, 1, vec![9u8; 4]))).unwrap();
    assert_ne!(t.rgba, vec![9u8; 4]);
}
