use photo_editor::recent::{recent_from_json, recent_to_json, remember, MAX_RECENT};

#[test]
fn remembered_folder_moves_to_the_front() {
    let mut list = vec!["/a".to_string(), "/b".to_string(), "/c".to_string()];
    remember(&mut list, "/b".to_string());
    assert_eq!(list, vec!["/b", "/a", "/c"]);
    remember(&mut list, "/d".to_string());
    assert_eq!(list, vec!["/d", "/b", "/a", "/c"]);
}

#[test]
fn recent_list_is_capped() {
    let mut list = Vec::new();
    for i in 0..12 {
        remember(&mut list, format!("/f{i}"));
    }
    assert_eq!(list.len(), MAX_RECENT);
    assert_eq!(list[0], "/f11");
    assert_eq!(list[MAX_RECENT - 1], "/f4");
}

#[test]
fn remembering_twice_changes_nothing_more() {
    let mut once = vec!["/a".to_string(), "/b".to_string()];
    remember(&mut once, "/b".to_string());
    let mut twice = once.clone();
    remember(&mut twice, "/b".to_string());
    assert_eq!(once, twice);
}

#[test]
fn the_same_folder_written_differently_is_not_kept_twice() {
    let mut list = vec!["/a/".to_string(), "/b".to_string()];
    remember(&mut list, "/a".to_string());
    assert_eq!(list, vec!["/a", "/b"]);
}

#[test]
fn recent_list_reads_a_json_array_of_folders() {
    assert_eq!(recent_from_json("[\"/a\", \"/b/c\"]"), vec!["/a".to_string(), "/b/c".to_string()]);
    assert_eq!(recent_from_json("[\"C:\\\\photos\"]"), vec!["C:\\photos".to_string()]);
}

#[test]
fn unreadable_recent_text_gives_an_empty_list() {
    assert!(recent_from_json("").is_empty());
    assert!(recent_from_json("not json").is_empty());
    assert!(recent_from_json("[1, 2]").is_empty());
    assert!(recent_from_json("{\"a\": \"b\"}").is_empty());
}

#[test]
fn recent_list_is_written_as_pretty_json() {
    assert_eq!(recent_to_json(&vec!["/a".to_string(), "/b".to_string()]), "[\n  \"/a\",\n  \"/b\"\n]");
    assert_eq!(recent_to_json(&Vec::new()), "[]");
}

#[test]
fn written_recent_list_reads_back_the_same() {
    let list = vec![
        "C:\\photos\\2024".to_string(),
        "/home/me/\"quoted\"".to_string(),
        "/été/\u{1F4F7}\n".to_string(),
    ];
    assert_eq!(recent_from_json(&recent_to_json(&list)), list);
}
