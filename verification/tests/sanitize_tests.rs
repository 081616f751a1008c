//! Names that every file system accepts.

use ia_get::sanitize::sanitize_filename;

#[test]
fn test_sanitize_valid_filename() {
    let (result, modified) = sanitize_filename("normal_file-name.txt");
    assert_eq!(result, "normal_file-name.txt");
    assert!(!modified);
}

#[test]
fn test_sanitize_valid_filename_with_path() {
    let (result, modified) = sanitize_filename("folder/subfolder/file.txt");
    assert_eq!(result, "folder/subfolder/file.txt");
    assert!(!modified);
}

#[test]
fn test_sanitize_invalid_characters() {
    let (result, modified) = sanitize_filename("file?name:test<>.txt");
    assert_eq!(result, "file_name_test__.txt");
    assert!(modified);
}

#[test]
fn test_sanitize_question_mark() {
    let (result, modified) = sanitize_filename("Episode?.mp4");
    assert_eq!(result, "Episode_.mp4");
    assert!(modified);
}

#[test]
fn test_sanitize_with_path() {
    let (result, modified) = sanitize_filename("Season 1/Episode?.mp4");
    assert_eq!(result, "Season 1/Episode_.mp4");
    assert!(modified);
}

#[test]
fn test_sanitize_multiple_invalid_in_path() {
    let (result, modified) = sanitize_filename("Folder:Name/File*Name?.txt");
    assert_eq!(result, "Folder_Name/File_Name_.txt");
    assert!(modified);
}

#[test]
fn test_sanitize_windows_reserved_names() {
    let (result, modified) = sanitize_filename("CON.txt");
    assert_eq!(result, "CON_.txt");
    assert!(modified);

    let (result, modified) = sanitize_filename("con.txt");
    assert_eq!(result, "con_.txt");
    assert!(modified);

    let (result, modified) = sanitize_filename("PRN");
    assert_eq!(result, "PRN_");
    assert!(modified);

    let (result, modified) = sanitize_filename("aux.log");
    assert_eq!(result, "aux_.log");
    assert!(modified);

    let (result, modified) = sanitize_filename("COM1.dat");
    assert_eq!(result, "COM1_.dat");
    assert!(modified);

    let (result, modified) = sanitize_filename("LPT9.txt");
    assert_eq!(result, "LPT9_.txt");
    assert!(modified);
}

#[test]
fn test_sanitize_reserved_in_path() {
    let (result, modified) = sanitize_filename("folder/CON.txt");
    assert_eq!(result, "folder/CON_.txt");
    assert!(modified);
}

#[test]
fn test_sanitize_control_characters() {
    let (result, modified) = sanitize_filename("file\x00\x1fname.txt");
    assert_eq!(result, "file__name.txt");
    assert!(modified);

    let (result, modified) = sanitize_filename("test\x7Ffile.txt");
    assert_eq!(result, "test_file.txt");
    assert!(modified);
}

#[test]
fn test_sanitize_backslash() {
    let (result, modified) = sanitize_filename("folder\\file.txt");
    assert_eq!(result, "folder_file.txt");
    assert!(modified);
}

#[test]
fn test_sanitize_whitespace_edge_cases() {
    let (result, modified) = sanitize_filename(" leading.txt ");
    assert_eq!(result, "leading.txt");
    assert!(modified);

    let (result, modified) = sanitize_filename("folder/ spaces /file.txt");
    assert_eq!(result, "folder/spaces/file.txt");
    assert!(modified);
}

#[test]
fn test_sanitize_trailing_dots() {
    let (result, modified) = sanitize_filename("file...");
    assert_eq!(result, "file");
    assert!(modified);

    let (result, modified) = sanitize_filename("folder./file.txt");
    assert_eq!(result, "folder/file.txt");
    assert!(modified);
}

#[test]
fn test_sanitize_empty_components() {
    let (result, modified) = sanitize_filename("folder//file.txt");
    assert_eq!(result, "folder/file.txt");
    assert!(modified);

    let (result, modified) = sanitize_filename("/folder/file.txt");
    assert_eq!(result, "folder/file.txt");
    assert!(modified);

    let (result, modified) = sanitize_filename("folder/file.txt/");
    assert_eq!(result, "folder/file.txt");
    assert!(modified);
}

#[test]
fn test_sanitize_all_invalid() {
    let (result, modified) = sanitize_filename("???");
    assert_eq!(result, "___");
    assert!(modified);
}

#[test]
fn test_sanitize_unicode() {
    let (result, modified) = sanitize_filename("файл.txt");
    assert_eq!(result, "файл.txt");
    assert!(!modified);

    let (result, modified) = sanitize_filename("文件.txt");
    assert_eq!(result, "文件.txt");
    assert!(!modified);

    let (result, modified) = sanitize_filename("emoji😀.txt");
    assert_eq!(result, "emoji😀.txt");
    assert!(!modified);
}

#[test]
fn test_sanitize_mixed_valid_invalid() {
    let (result, modified) =
        sanitize_filename("Red vs. Blue - Season 1/Episode 1: Why Are We Here?.mp4");
    assert_eq!(
        result,
        "Red vs. Blue - Season 1/Episode 1_ Why Are We Here_.mp4"
    );
    assert!(modified);
}

#[test]
fn test_sanitize_preserves_extension() {
    let (result, modified) = sanitize_filename("file:name.tar.gz");
    assert_eq!(result, "file_name.tar.gz");
    assert!(modified);
}

fn clean(name: &str) -> String {
    sanitize_filename(name).0
}

#[test]
fn sanitized_names_stay_as_they_are() {
    for name in [
        "a/b/c.txt", "CON.txt", "con", " x /y..", "a:b/c?d", "//a//", "COM1.tar.gz", "a\\b", "...",
        "\u{a0}nbsp\u{a0}", "", "a .", "con . ./x",
    ] {
        let once = clean(name);
        let (twice, modified) = sanitize_filename(&once);
        assert_eq!(twice, once);
        assert!(!modified);
    }
}

#[test]
fn nothing_loose_is_left_at_the_end() {
    assert_eq!(clean("a ."), "a");
    assert_eq!(clean("a . . /b.. "), "a/b");
    assert_eq!(clean(" . ."), "_");
    assert_eq!(clean("con ."), "con_");
    assert_eq!(clean(".hidden"), ".hidden");
    assert_eq!(clean("a\u{3000}."), "a");
}

#[test]
fn only_dots_become_an_underscore() {
    assert_eq!(clean("."), "_");
    assert_eq!(clean("../up"), "_/up");
    assert_eq!(clean("   "), "_");
}

#[test]
fn reserved_names_are_told_by_their_base() {
    assert_eq!(clean("nul.tar.gz"), "nul_.tar.gz");
    assert_eq!(clean("COM0"), "COM0");
    assert_eq!(clean("COM10"), "COM10");
    assert_eq!(clean("LpT1"), "LpT1_");
    assert_eq!(clean("console.log"), "console.log");
    assert_eq!(clean("con:"), "con_");
}

#[test]
fn an_empty_name_is_not_changed() {
    assert_eq!(sanitize_filename(""), (String::new(), false));
    assert_eq!(sanitize_filename("/"), (String::new(), true));
}

#[test]
fn forbidden_characters_are_replaced_one_by_one() {
    assert_eq!(clean("<>:\"|?*\\"), "________");
    for code in 0u8..32 {
        let name = format!("a{}b", char::from(code));
        assert_eq!(clean(&name), "a_b");
    }
}
