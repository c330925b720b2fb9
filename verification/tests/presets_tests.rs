use photo_editor::presets::{preset_file_name, preset_names, sanitize};

#[test]
fn sanitize_strips_path_chars() {
    assert_eq!(sanitize("My/Look:1"), "My_Look_1");
}

#[test]
fn sanitize_keeps_safe_characters_and_trims() {
    assert_eq!(sanitize("  Warm-sunset_2 "), "Warm-sunset_2");
    assert_eq!(sanitize("Été*"), "Été_");
    assert_eq!(sanitize("   "), "");
}

#[test]
fn preset_file_name_appends_json() {
    assert_eq!(preset_file_name("B&W look"), "B_W look.json");
}

#[test]
fn preset_names_lists_json_stems_sorted_ignoring_case() {
    let entries = vec![
        "/presets/warm.json".to_string(),
        "/presets/Cool.json".to_string(),
        "/presets/notes.txt".to_string(),
        "/presets/backup.JSON".to_string(),
        "/presets/amber.json".to_string(),
    ];
    assert_eq!(preset_names(&entries), vec!["amber", "Cool", "warm"]);
}

#[test]
fn preset_names_of_an_empty_folder() {
    assert!(preset_names(&Vec::new()).is_empty());
}

#[test]
fn a_name_of_spaces_sanitizes_to_nothing() {
    assert_eq!(sanitize("    "), "");
    assert_eq!(sanitize("\t look \u{3000}"), "_ look _");
}

#[test]
fn preset_names_read_the_file_name_past_doubled_and_trailing_slashes() {
    let entries = vec![
        "/presets//warm.json".to_string(),
        "/presets/dir.json/".to_string(),
        "/presets/./Cool.json".to_string(),
    ];
    assert_eq!(preset_names(&entries), vec!["Cool", "dir", "warm"]);
}
