//! Local paths and directories.

use ia_get::error::IaGetError;
use ia_get::paths::{
    collect_archive_directories, directory_error, file_display_label, name_or_path,
    resolve_local_download_path, truncate_file_label,
};

#[test]
fn resolve_local_download_path_keeps_structure_when_requested() {
    let (path, modified) = resolve_local_download_path("apk/game.apk", true, false, true);
    assert_eq!(path, "apk/game.apk");
    assert!(!modified);
}

#[test]
fn resolve_local_download_path_keeps_structure_for_partial_folder_flag() {
    let (path, modified) = resolve_local_download_path("apk/game.apk", false, true, true);
    assert_eq!(path, "apk/game.apk");
    assert!(!modified);
}

#[test]
fn resolve_local_download_path_flattens_filtered_downloads_by_default() {
    let (path, modified) = resolve_local_download_path("apk/game.apk", false, false, true);
    assert_eq!(path, "game.apk");
    assert!(modified);
}

#[test]
fn resolve_local_download_path_keeps_structure_without_filters() {
    let (path, modified) = resolve_local_download_path("apk/game.apk", false, false, false);
    assert_eq!(path, "apk/game.apk");
    assert!(!modified);
}

#[test]
fn resolve_local_download_path_applies_sanitization_before_flattening() {
    let (path, modified) = resolve_local_download_path("apk/game?.apk", false, false, true);
    assert_eq!(path, "game_.apk");
    assert!(modified);
}

#[test]
fn collect_archive_directories_includes_nested_and_empty_parents() {
    let paths = vec![
        "apk/game.apk".to_string(),
        "data/readme.txt".to_string(),
        "deep/nested/file.zip".to_string(),
    ];
    assert_eq!(
        collect_archive_directories(&paths),
        vec![
            "apk".to_string(),
            "data".to_string(),
            "deep".to_string(),
            "deep/nested".to_string(),
        ]
    );
}

#[test]
fn collect_archive_directories_ignores_root_level_files() {
    let paths = vec!["readme.txt".to_string(), "cover.jpg".to_string()];
    assert!(collect_archive_directories(&paths).is_empty());
}

fn strings(items: &[&str]) -> Vec<String> {
    items.iter().map(|item| item.to_string()).collect()
}

#[test]
fn directories_are_sorted_and_stand_once() {
    let paths = strings(&["z/1", "a/x/1", "a/2", "a/x/3", "A/1", "b?/1", "/c//1/"]);
    assert_eq!(
        collect_archive_directories(&paths),
        strings(&["A", "a", "a/x", "b_", "c", "z"])
    );
}

#[test]
fn more_files_imply_no_fewer_directories() {
    let few = collect_archive_directories(&strings(&["a/b/c"]));
    let many = collect_archive_directories(&strings(&["a/b/c", "d/e"]));
    assert!(few.iter().all(|dir| many.contains(dir)));
    assert_eq!(many, strings(&["a", "a/b", "d"]));
}

#[test]
fn flat_paths_have_no_folder() {
    for path in ["a/b/c.apk", "x", "deep/er/and/deeper.zip", "a/b/"] {
        let (local, _) = resolve_local_download_path(path, false, false, true);
        assert!(!local.contains('/'));
    }
    assert_eq!(resolve_local_download_path("a/b/", false, false, true), ("b".to_string(), true));
    assert_eq!(resolve_local_download_path("", false, false, true), (String::new(), false));
}

#[test]
fn flags_do_not_matter_without_filters() {
    for (keep, partial) in [(false, false), (true, false), (false, true), (true, true)] {
        assert_eq!(
            resolve_local_download_path("apk/game?.apk", keep, partial, false),
            ("apk/game_.apk".to_string(), true)
        );
    }
}

#[test]
fn labels_are_the_last_component() {
    assert_eq!(file_display_label("apk/game.apk"), "game.apk");
    assert_eq!(file_display_label("game.apk"), "game.apk");
    assert_eq!(file_display_label(""), "");
    for (path, label) in [
        ("a/..", "a/.."), ("..", ".."), ("/", "/"), (".", "."), ("a/", "a"), ("a//", "a"),
        ("a/.", "a"), ("a/./", "a"), ("/a", "a"), ("./a", "a"), ("a..", "a.."), ("a/...", "..."),
        ("../b", "b"),
    ] {
        assert_eq!(file_display_label(path), label);
    }
    assert_eq!(name_or_path("a/b", Some("b".to_string())), "b");
    assert_eq!(name_or_path("a/..", None), "a/..");
}

#[test]
fn long_labels_end_in_an_ellipsis() {
    assert_eq!(truncate_file_label("short", 26), "short");
    assert_eq!(truncate_file_label("abcdef", 6), "abcdef");
    assert_eq!(truncate_file_label("abcdefg", 6), "abcde…");
    assert_eq!(truncate_file_label("файл-файл", 5), "файл…");
    assert_eq!(truncate_file_label("ab", 0), "…");
}

#[test]
fn directory_errors_name_the_directory() {
    assert_eq!(
        directory_error("a/b", "denied"),
        IaGetError::FileSystem("Failed to create directory 'a/b': denied".to_string())
    );
}
