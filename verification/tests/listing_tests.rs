use photo_editor::listing::{focus_index, sort_by_file_name, sort_names};

fn strings(v: &[&str]) -> Vec<String> {
    v.iter().map(|s| s.to_string()).collect()
}

#[test]
fn names_sort_ignoring_case() {
    let names = strings(&["beta", "Alpha", "alpha2", "ALPHA"]);
    assert_eq!(sort_names(&names), strings(&["Alpha", "ALPHA", "alpha2", "beta"]));
}

#[test]
fn photos_sort_by_file_name() {
    let paths = strings(&["/z/b.jpg", "/a/C.jpg", "/m/A.jpg"]);
    assert_eq!(sort_by_file_name(&paths), strings(&["/m/A.jpg", "/z/b.jpg", "/a/C.jpg"]));
    assert!(sort_by_file_name(&Vec::new()).is_empty());
}

#[test]
fn focus_starts_at_the_opened_photo() {
    let files = strings(&["/p/a.jpg", "/p/b.jpg", "/p/c.jpg"]);
    assert_eq!(focus_index(&files, &Some("/p/c.jpg".to_string())), 2);
    assert_eq!(focus_index(&files, &Some("/p/x.jpg".to_string())), 0);
    assert_eq!(focus_index(&files, &None), 0);
}

#[test]
fn focus_compares_paths_not_text() {
    let files = strings(&["/p/a.jpg", "/p/b.jpg"]);
    assert_eq!(focus_index(&files, &Some("/p/b.jpg/".to_string())), 1);
    assert_eq!(focus_index(&files, &Some("/p//b.jpg".to_string())), 1);
}

#[test]
fn photos_sort_by_the_file_name_a_trailing_slash_leaves() {
    let sorted = sort_by_file_name(&strings(&["/p//c.jpg", "/q/B.jpg/", "/r/a.jpg/."]));
    assert_eq!(sorted, strings(&["/r/a.jpg/.", "/q/B.jpg/", "/p//c.jpg"]));
}
