use mdiff_core::language::{detect_language, highlight_names_vec};
use mdiff_core::session::{migrate_entry_ranges, session_accepted};

#[test]
fn detect_language_by_extension() {
    assert_eq!(detect_language("src/main.rs"), Some("rust"));
    assert_eq!(detect_language("web/app.tsx"), Some("typescript"));
    assert_eq!(detect_language("a/b/setup.py"), Some("python"));
    assert_eq!(detect_language("conf/settings.yml"), Some("yaml"));
    assert_eq!(detect_language("notes.txt"), None);
    assert_eq!(detect_language("no_extension"), None);
    assert_eq!(detect_language(".hidden"), None);
}

#[test]
fn detect_language_by_filename() {
    assert_eq!(detect_language("proj/Makefile"), Some("bash"));
    assert_eq!(detect_language("Dockerfile"), Some("bash"));
    assert_eq!(detect_language("Gemfile"), Some("ruby"));
}

#[test]
fn highlight_names_are_ordered() {
    let names = highlight_names_vec();
    assert_eq!(names.len(), 26);
    assert_eq!(names[0], "attribute");
    assert_eq!(names[9], "keyword");
    assert_eq!(names[25], "variable.parameter");
}

#[test]
fn session_version_gate() {
    assert!(session_accepted(1, "main", "main"));
    assert!(session_accepted(2, "main", "main"));
    assert!(!session_accepted(3, "main", "main"));
    assert!(!session_accepted(2, "main", "other"));
}

#[test]
fn v1_records_upgrade_to_new_range() {
    // A version-1 record carries one range without an old/new split: it
    // becomes a new-range-only anchor.
    let (old, new) = migrate_entry_ranges(1, None, None, None, None, Some(4), Some(9));
    assert_eq!(old, None);
    assert_eq!(new, Some((4, 9)));
    // Missing bounds default to line one, and the end to the start.
    let (old, new) = migrate_entry_ranges(1, None, None, None, None, None, None);
    assert_eq!(old, None);
    assert_eq!(new, Some((1, 1)));
    // Version 2 keeps both sides, each only when both bounds exist.
    let (old, new) =
        migrate_entry_ranges(2, Some(3), Some(5), Some(7), None, None, None);
    assert_eq!(old, Some((3, 5)));
    assert_eq!(new, None);
}
