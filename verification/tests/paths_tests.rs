use photo_editor::paths::{edited_file_name, is_raw, is_supported, sidecar_path};

#[test]
fn sidecar_path_appends_suffix() {
    let p = sidecar_path(r"C:\photos\img_001.CR3");
    assert_eq!(p, r"C:\photos\img_001.CR3.edits.json");
}

#[test]
fn sidecar_path_stays_in_the_photo_folder() {
    assert_eq!(sidecar_path("/home/me/pics/a.jpg"), "/home/me/pics/a.jpg.edits.json");
    assert_eq!(sidecar_path("a.jpg"), "a.jpg.edits.json");
}

#[test]
fn extension_detection() {
    assert!(is_supported("a.JPG"));
    assert!(is_supported("a.cr3"));
    assert!(is_raw("a.NEF"));
    assert!(!is_raw("a.png"));
    assert!(!is_supported("a.txt"));
    assert!(!is_supported("noext"));
}

#[test]
fn hidden_files_have_no_extension() {
    assert!(!is_supported("/pics/.jpg"));
    assert!(is_supported("/pics/.x.tiff"));
}

#[test]
fn edited_file_name_uses_the_stem() {
    assert_eq!(edited_file_name("/pics/IMG_1.CR3", "jpg"), "IMG_1_edited.jpg");
    assert_eq!(edited_file_name("/pics/archive.tar.gz", "png"), "archive.tar_edited.png");
    assert_eq!(edited_file_name("/pics/noext", "tif"), "noext_edited.tif");
}

#[test]
fn windows_style_paths_are_classified_by_extension() {
    assert!(is_supported(r"C:\photos\b.JPG"));
    assert!(is_raw(r"C:\photos\img_001.CR3"));
    assert!(!is_supported(r"C:\photos\notes.txt"));
    assert!(!is_supported(r"C:\photos\noext"));
}

#[test]
fn sidecar_of_a_path_ending_in_a_name_appends_the_suffix() {
    assert_eq!(sidecar_path("a//b.jpg"), "a//b.jpg.edits.json");
    assert_eq!(sidecar_path(r"D:\x\y\z.NEF"), r"D:\x\y\z.NEF.edits.json");
}

#[test]
fn sidecar_of_a_path_with_a_trailing_slash_names_its_file() {
    assert_eq!(sidecar_path("/pics/a.jpg/"), "/pics/a.jpg.edits.json");
}

#[test]
fn a_trailing_separator_or_dot_does_not_change_the_file_named() {
    assert_eq!(sidecar_path("dir/photo.jpg/"), "dir/photo.jpg.edits.json");
    assert_eq!(sidecar_path("dir/photo.jpg/."), "dir/photo.jpg.edits.json");
    assert!(is_supported("a.jpg/"));
    assert!(is_raw("shots/a.NEF//"));
    assert_eq!(edited_file_name("/p/a.CR3/", "jpg"), "a_edited.jpg");
}

#[test]
fn a_path_without_a_name_still_gets_a_sidecar_name() {
    assert!(sidecar_path("..").ends_with(".edits.json"));
    assert!(sidecar_path("/").ends_with(".edits.json"));
}

#[test]
fn every_sidecar_name_ends_in_the_suffix() {
    assert!(sidecar_path(r"C:\x\a.jpg\").ends_with(".edits.json"));
    assert!(sidecar_path(r"\\server\share\a.jpg").ends_with(".edits.json"));
    assert!(sidecar_path("").ends_with(".edits.json"));
}
