//! The list of files.

use ia_get::cli::{
    build_run_request, folder_structure_requires_filters_message, format_filter_summary,
    normalize_cli_args, validate_folder_structure_flags, Cli,
};
use ia_get::error::IaGetError;
use ia_get::filters::parse_extension_filters;
use ia_get::listing::{list_file_rows, list_summary, total_known_size, XmlFile, XmlFiles};
use ia_get::plan::{
    archive_paths, directories_to_create, has_filters, plan_downloads, plan_file, purpose,
    renamed_count, retain_wanted, Layout, Purpose,
};
use ia_get::urls::parse_request_url;

fn xml_file(name: &str, size: Option<u64>) -> XmlFile {
    XmlFile {
        name: name.to_string(),
        source: "original".to_string(),
        mtime: None,
        size,
        format: None,
        rotation: None,
        md5: None,
        crc32: None,
        sha1: None,
        btih: None,
        summation: None,
        original: None,
    }
}

#[test]
fn list_file_rows_format_sizes_and_unknown_entries() {
    let files = XmlFiles {
        files: vec![
            xml_file("cover.jpg", Some(12_345)),
            xml_file("metadata.xml", None),
        ],
    };

    assert_eq!(
        list_file_rows(&files),
        vec![
            "  12.06KB cover.jpg".to_string(),
            "  unknown metadata.xml".to_string(),
        ]
    );
}

#[test]
fn list_summary_reports_total_known_size_and_unknown_count() {
    let files = XmlFiles {
        files: vec![
            xml_file("disk1.zip", Some(1_048_576)),
            xml_file("disk2.zip", Some(2_097_152)),
            xml_file("notes.txt", None),
        ],
    };

    assert_eq!(
        list_summary(&files),
        "3 files, 3.00MB total known size, 1 unknown size"
    );
}

fn strings(items: &[&str]) -> Vec<String> {
    items.iter().map(|item| item.to_string()).collect()
}

fn item() -> XmlFiles {
    XmlFiles {
        files: vec![
            xml_file("cover.jpg", Some(1)),
            xml_file("data/readme.txt", None),
            xml_file("apk/game.apk", Some(2)),
            xml_file("apk/bonus.apk", Some(3)),
            xml_file("torrent/item.torrent", Some(4)),
        ],
    }
}

fn names_of(files: &XmlFiles) -> Vec<String> {
    files.files.iter().map(|file| file.name.clone()).collect()
}

#[test]
fn summaries_count_in_singular_and_plural() {
    assert_eq!(list_summary(&XmlFiles { files: vec![] }), "0 files, 0B total");
    assert_eq!(
        list_summary(&XmlFiles { files: vec![xml_file("a", Some(2048))] }),
        "1 file, 2.00KB total"
    );
    assert_eq!(
        list_summary(&XmlFiles { files: vec![xml_file("a", None), xml_file("b", None)] }),
        "2 files, 0B total known size, 2 unknown sizes"
    );
}

#[test]
fn wide_sizes_are_not_cut() {
    let files = XmlFiles { files: vec![xml_file("big", Some(u64::MAX))] };
    assert_eq!(list_file_rows(&files), ["17179869184.00GB big"]);
}

#[test]
fn sizes_that_cannot_be_added_are_noticed() {
    assert_eq!(total_known_size(&item()), Some(10));
    let files = XmlFiles { files: vec![xml_file("a", Some(u64::MAX)), xml_file("b", Some(1))] };
    assert_eq!(total_known_size(&files), None);
}

#[test]
fn filters_keep_the_order_of_files() {
    let spec = parse_extension_filters(&strings(&["*apk"])).unwrap();
    assert!(has_filters(&spec));
    let kept = retain_wanted(item(), &spec);
    assert_eq!(names_of(&kept), ["apk/game.apk", "apk/bonus.apk"]);
    assert_eq!(archive_paths(&kept), ["apk/game.apk", "apk/bonus.apk"]);

    let none = parse_extension_filters(&[]).unwrap();
    assert!(!has_filters(&none));
    assert_eq!(retain_wanted(item(), &none), item());
}

#[test]
fn filtered_files_are_laid_flat_by_default() {
    let spec = parse_extension_filters(&strings(&["*apk"])).unwrap();
    let kept = retain_wanted(item(), &spec);
    let base = parse_request_url("https://archive.org/download/i/i_files.xml").unwrap();
    for (keep, partial, paths, dirs) in [
        (false, false, ["game.apk", "bonus.apk"], strings(&[])),
        (false, true, ["apk/game.apk", "apk/bonus.apk"], strings(&["apk"])),
        (true, false, ["apk/game.apk", "apk/bonus.apk"], strings(&["apk", "data", "torrent"])),
    ] {
        let layout = Layout {
            keep_folder_structure: keep,
            partial_folder_structure: partial,
            has_filters: true,
        };
        let entries = plan_downloads(&kept, &base, layout);
        let local: Vec<&str> = entries.iter().map(|entry| entry.local_path.as_str()).collect();
        assert_eq!(local, paths);
        assert_eq!(entries[0].url, "https://archive.org/download/i/apk/game.apk");
        assert_eq!(
            directories_to_create(&names_of(&item()), &names_of(&kept), keep, partial, true),
            dirs
        );
        assert_eq!(renamed_count(&entries), if keep || partial { 0 } else { 2 });
    }
}

#[test]
fn unfiltered_files_keep_the_whole_tree() {
    let base = parse_request_url("https://archive.org/download/i/i_files.xml").unwrap();
    let layout = Layout {
        keep_folder_structure: false,
        partial_folder_structure: false,
        has_filters: false,
    };
    let entries = plan_downloads(&item(), &base, layout);
    assert!(entries.iter().all(|entry| entry.local_path == entry.name && !entry.renamed));
    assert_eq!(
        directories_to_create(&names_of(&item()), &[], false, false, false),
        ["apk", "data", "torrent"]
    );
}

#[test]
fn plans_carry_hashes_and_new_names() {
    let mut file = xml_file("a?.txt", Some(1));
    file.md5 = Some("abc".to_string());
    let layout = Layout {
        keep_folder_structure: false,
        partial_folder_structure: false,
        has_filters: false,
    };
    let entry = plan_file(&file, "u".to_string(), layout);
    assert_eq!(entry.name, "a?.txt");
    assert_eq!(entry.local_path, "a_.txt");
    assert_eq!(entry.md5.as_deref(), Some("abc"));
    assert_eq!(entry.url, "u");
    assert!(entry.renamed);
}

#[test]
fn listing_comes_before_downloading() {
    assert_eq!(purpose(true, 0), Purpose::List);
    assert_eq!(purpose(true, 3), Purpose::List);
    assert_eq!(purpose(false, 0), Purpose::Nothing);
    assert_eq!(purpose(false, 3), Purpose::Download);
}

#[test]
fn the_two_letter_flag_is_written_out() {
    let args = strings(&["ia-get", "-pk", "-k", "--pk", "-pkx"]);
    let normal = normalize_cli_args(&args);
    assert_eq!(normal, ["ia-get", "--partial-folder-structure", "-k", "--pk", "-pkx"]);
    assert_eq!(normalize_cli_args(&normal), normal);
}

#[test]
fn a_request_needs_a_url() {
    let cli = Cli {
        url: Some("u".to_string()),
        filters: strings(&["*a"]),
        list: true,
        cookies: Some("c".to_string()),
        keep_folder_structure: true,
        partial_folder_structure: false,
    };
    let request = build_run_request(cli.clone()).unwrap();
    assert_eq!(request.url, "u");
    assert_eq!(request.filters, ["*a"]);
    assert!(request.list && request.keep_folder_structure && !request.partial_folder_structure);
    assert_eq!(request.cookies.as_deref(), Some("c"));
    assert_eq!(
        build_run_request(Cli { url: None, ..cli }),
        Err(IaGetError::UrlFormat(
            "Missing archive.org URL. Example: ia-get https://archive.org/details/my-item".to_string()
        ))
    );
}

#[test]
fn folder_flags_need_filters() {
    for (keep, partial) in [(false, false), (true, false), (false, true)] {
        assert!(validate_folder_structure_flags(keep, partial, true).is_ok());
    }
    assert!(validate_folder_structure_flags(false, false, false).is_ok());
    assert_eq!(
        validate_folder_structure_flags(true, false, false),
        Err(IaGetError::UrlFormat(
            "keep-folder-structure (-k) requires include (*ext) or exclude (#ext) filters".to_string()
        ))
    );
    assert_eq!(
        validate_folder_structure_flags(false, true, false),
        Err(IaGetError::UrlFormat(folder_structure_requires_filters_message(
            "partial-folder-structure (-pk)"
        )))
    );
}

#[test]
fn filters_are_summed_up_in_a_line() {
    assert_eq!(format_filter_summary(&strings(&["*apk", "#jpg"])), "*apk, #jpg");
    assert_eq!(format_filter_summary(&[]), "");
}
