//! Listing directories, and choosing the editor.

use remux::browse::{
    editor_argv, home_dir, is_absolute, is_text_before, list_directory, sort_by_lower_case, split_words, DirEntry,
    Found, Listing, ReadFailure, Target, FALLBACK_EDITOR, MAX_ENTRIES,
};
use remux::selection::is_white;

fn file(name: &str) -> Option<Found> {
    Some(Found {
        name: name.to_string(),
        is_symlink: Some(false),
        target: Some(Target { is_dir: false, size: 1 }),
    })
}

fn dir(name: &str) -> Option<Found> {
    Some(Found {
        name: name.to_string(),
        is_symlink: Some(false),
        target: Some(Target { is_dir: true, size: 4096 }),
    })
}

fn names(l: &Listing) -> Vec<String> {
    l.entries.iter().map(|e| e.name.clone()).collect()
}

#[test]
fn a_relative_path_is_refused_rather_than_resolved_against_the_daemons_cwd() {
    for relative in [".", "src", "../etc", ""] {
        let l = list_directory(relative, &Ok(vec![file("a.txt")]));
        assert!(
            l.entries.is_empty(),
            "a relative path must not produce a listing (got {:?} for {relative:?})",
            names(&l)
        );
        let err = l.error.unwrap_or_default();
        assert!(
            err.contains("absolute"),
            "the refusal must say WHY (got {err:?} for {relative:?})"
        );
    }
    let ok = list_directory("/tmp/absolute", &Ok(vec![file("a.txt")]));
    assert_eq!(names(&ok), vec!["a.txt".to_string()]);
    assert_eq!(ok.error, None);
}

#[test]
fn directories_sort_above_files_and_names_ignore_case() {
    let items = vec![
        file("Zebra.txt"),
        file("apple.txt"),
        file("Beta.txt"),
        dir("src"),
        dir("Docs"),
    ];
    let l = list_directory("/tmp/sort", &Ok(items));
    assert_eq!(l.error, None);
    assert_eq!(
        names(&l),
        vec!["Docs", "src", "apple.txt", "Beta.txt", "Zebra.txt"],
        "directories first, then case-insensitive by name"
    );
}

#[test]
fn hidden_files_are_listed_because_the_client_is_what_hides_them() {
    let l = list_directory("/tmp/hidden", &Ok(vec![file("plain"), file(".secret")]));
    assert_eq!(names(&l), vec![".secret", "plain"]);
}

#[test]
fn a_missing_directory_reports_why_rather_than_looking_empty() {
    let l = list_directory("/nonexistent-remux-browse-path", &Err(ReadFailure::NotFound));
    assert!(l.entries.is_empty());
    assert_eq!(l.error.as_deref(), Some("not found"));
}

#[test]
fn listing_a_file_is_an_error_not_an_empty_directory() {
    let l = list_directory("/tmp/notadir/file", &Err(ReadFailure::NotADirectory));
    assert!(l.error.is_some(), "got {l:?}");
    assert!(l.entries.is_empty());
}

#[test]
fn a_symlink_to_a_directory_is_marked_as_both_and_can_be_descended() {
    let items = vec![
        dir("real"),
        Some(Found {
            name: "link".to_string(),
            is_symlink: Some(true),
            target: Some(Target { is_dir: true, size: 4096 }),
        }),
        Some(Found { name: "broken".to_string(), is_symlink: Some(true), target: None }),
    ];
    let l = list_directory("/tmp/symlink", &Ok(items));
    let link = l.entries.iter().find(|e| e.name == "link").unwrap();
    assert!(link.is_dir, "a symlinked directory must be descendable");
    assert!(link.is_symlink);
    let broken = l.entries.iter().find(|e| e.name == "broken").unwrap();
    assert!(!broken.is_dir, "a broken symlink follows nowhere");
    assert!(broken.is_symlink);
    assert_eq!(broken.size, 0);
}

#[test]
fn a_directory_over_the_cap_is_truncated_and_says_so() {
    let items = (0..(MAX_ENTRIES + 10)).map(|i| file(&format!("f{i:06}"))).collect();
    let l = list_directory("/tmp/cap", &Ok(items));
    assert!(l.truncated, "the cap must be reported, never silent");
    assert_eq!(l.entries.len(), MAX_ENTRIES);
}

#[test]
fn a_directory_under_the_cap_is_not_flagged_truncated() {
    assert!(!list_directory("/tmp/uncap", &Ok(vec![file("only")])).truncated);
}

#[test]
fn the_configured_command_wins_and_the_path_is_its_own_argument() {
    assert_eq!(
        editor_argv(Some("hx"), Some("nano"), "/tmp/my notes.txt"),
        vec!["hx", "/tmp/my notes.txt"],
        "a path with a space must stay ONE argument"
    );
}

#[test]
fn an_editor_string_with_flags_is_split_into_argv() {
    assert_eq!(
        editor_argv(Some("emacsclient -t"), None, "/a/b"),
        vec!["emacsclient", "-t", "/a/b"]
    );
}

#[test]
fn with_no_command_and_no_editor_it_falls_back_to_vi() {
    assert_eq!(editor_argv(None, None, "/a/b"), vec![FALLBACK_EDITOR, "/a/b"]);
}

#[test]
fn the_servers_editor_is_used_when_the_panel_configures_none() {
    assert_eq!(editor_argv(None, Some("nvim -R"), "/a/b"), vec!["nvim", "-R", "/a/b"]);
}

#[test]
fn an_empty_editor_variable_falls_back_rather_than_exec_ing_nothing() {
    assert_eq!(editor_argv(None, Some("   "), "/a/b"), vec![FALLBACK_EDITOR, "/a/b"]);
}

#[test]
fn a_blank_command_does_not_hand_over_to_the_environment() {
    assert_eq!(editor_argv(Some(" "), Some("nano"), "/a/b"), vec!["vi", "/a/b"]);
}

#[test]
fn words_are_parted_by_any_white_space() {
    assert_eq!(split_words("\t a\u{3000}b\n"), vec!["a", "b"]);
    assert!(split_words("").is_empty());
}

#[test]
fn white_space_is_what_the_language_says() {
    for n in 0..=0x10ffffu32 {
        if let Some(c) = char::from_u32(n) {
            assert_eq!(is_white(c), c.is_whitespace(), "{n:x}");
        }
    }
}

#[test]
fn the_reasons_are_short() {
    let reason = |e| list_directory("/x", &Err(e)).error.unwrap();
    assert_eq!(reason(ReadFailure::PermissionDenied), "permission denied");
    assert_eq!(reason(ReadFailure::NotADirectory), "not a directory");
    assert_eq!(reason(ReadFailure::Other("timed out".to_string())), "timed out");
    let l = list_directory("etc", &Ok(Vec::new()));
    assert_eq!(l.error.as_deref(), Some("not an absolute path: etc"));
    assert!(!l.truncated);
    assert!(is_absolute("/") && !is_absolute("~"));
}

#[test]
fn an_unreadable_item_does_not_fail_the_directory() {
    let l = list_directory("/x", &Ok(vec![file("b"), None, file("a")]));
    assert_eq!(names(&l), vec!["a", "b"]);
    assert_eq!(l.error, None);
}

#[test]
fn unreadable_items_do_not_count_for_the_cap() {
    let mut items: Vec<Option<Found>> = (0..MAX_ENTRIES).map(|i| file(&format!("f{i}"))).collect();
    items.push(None);
    let l = list_directory("/x", &Ok(items));
    assert!(!l.truncated);
    assert_eq!(l.entries.len(), MAX_ENTRIES);
}

#[test]
fn a_refresh_moves_nothing() {
    let a = list_directory("/x", &Ok(vec![file("aB"), file("Ab"), dir("z"), file("ab")]));
    let b = list_directory("/x", &Ok(vec![file("ab"), dir("z"), file("Ab"), file("aB")]));
    assert_eq!(a, b);
    assert_eq!(names(&a), vec!["z", "Ab", "aB", "ab"]);
}

#[test]
fn names_are_lowered_beyond_ascii() {
    let l = list_directory("/x", &Ok(vec![file("Éclair"), file("éa"), file("zoo")]));
    assert_eq!(names(&l), vec!["zoo", "éa", "Éclair"]);
}

#[test]
fn texts_have_an_order() {
    let before = |a: &str, b: &str| is_text_before(&a.chars().collect(), &b.chars().collect());
    let words = ["", "Z", "a", "ab", "b", "é"];
    for (i, a) in words.iter().enumerate() {
        for (j, b) in words.iter().enumerate() {
            assert_eq!(before(a, b), i < j, "{a:?} {b:?}");
            assert_eq!(before(a, b), a < b);
        }
    }
}

#[test]
fn the_lower_case_names_decide() {
    let entry = |name: &str| DirEntry {
        name: name.to_string(),
        is_dir: false,
        is_symlink: false,
        size: 0,
    };
    let sorted = sort_by_lower_case(
        &vec![entry("one"), entry("two"), entry("three")],
        &vec!["b".to_string(), "a".to_string(), "b".to_string()],
    );
    let got: Vec<&str> = sorted.iter().map(|e| e.name.as_str()).collect();
    assert_eq!(got, vec!["two", "one", "three"]);
}

#[test]
fn the_home_directory_is_the_systems() {
    let known = dirs::home_dir().and_then(|h| h.to_str().map(str::to_string));
    assert_eq!(home_dir(), known);
}
