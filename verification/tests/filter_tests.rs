//! Include and exclude filters.

use ia_get::error::IaGetError;
use ia_get::filters::{
    file_matches_extension_filters, file_passes_extension_filters, normalize_extension_excludes,
    normalize_extension_filters, parse_extension_filters, split_extension_filter_args,
};

#[test]
fn extension_filters_match_case_insensitive() {
    let filters =
        normalize_extension_filters(&["*APK".to_string(), "*XAPK".to_string()]).unwrap();
    assert!(file_matches_extension_filters("apps/game.APK", &filters));
    assert!(file_matches_extension_filters("bundle/file.xapk", &filters));
    assert!(!file_matches_extension_filters("readme.txt", &filters));
}

#[test]
fn empty_filters_match_everything() {
    let filters = normalize_extension_filters(&[]).unwrap();
    assert!(file_matches_extension_filters("anything.bin", &filters));
}

#[test]
fn invalid_filter_must_start_with_star() {
    assert!(normalize_extension_filters(&["apk".to_string()]).is_err());
}

#[test]
fn extension_excludes_match_case_insensitive() {
    let excludes = normalize_extension_excludes(&["#JPG".to_string(), "#torrent".to_string()])
        .unwrap();
    assert!(!file_passes_extension_filters("photo.JPG", &[], &excludes));
    assert!(!file_passes_extension_filters("data/file.torrent", &[], &excludes));
    assert!(file_passes_extension_filters("readme.txt", &[], &excludes));
}

#[test]
fn empty_excludes_match_everything() {
    let spec = parse_extension_filters(&[]).unwrap();
    assert!(file_passes_extension_filters(
        "anything.bin",
        &spec.includes,
        &spec.excludes
    ));
}

#[test]
fn parse_extension_filters_splits_include_and_exclude() {
    let spec =
        parse_extension_filters(&["*apk".to_string(), "#jpg".to_string(), "#torrent".to_string()])
            .unwrap();
    assert_eq!(spec.includes, vec![".apk"]);
    assert_eq!(spec.excludes, vec![".jpg", ".torrent"]);
    assert!(file_passes_extension_filters("game.apk", &spec.includes, &spec.excludes));
    assert!(!file_passes_extension_filters("cover.jpg", &spec.includes, &spec.excludes));
    assert!(!file_passes_extension_filters("photo.jpg", &[], &spec.excludes));
}

#[test]
fn invalid_filter_must_use_star_or_hash_prefix() {
    assert!(split_extension_filter_args(&["jpg".to_string()]).is_err());
}

fn strings(items: &[&str]) -> Vec<String> {
    items.iter().map(|item| item.to_string()).collect()
}

fn wanted(name: &str, filters: &[&str]) -> bool {
    let spec = parse_extension_filters(&strings(filters)).unwrap();
    file_passes_extension_filters(name, &spec.includes, &spec.excludes)
}

#[test]
fn excludes_remove_what_includes_let_in() {
    let filters = ["*apk", "*xapk", "#xapk"];
    assert!(wanted("apps/game.apk", &filters));
    assert!(!wanted("apps/game.xapk", &filters));
    assert!(!wanted("readme.txt", &filters));
}

#[test]
fn excludes_alone_let_everything_else_in() {
    let filters = ["#jpg", "#torrent"];
    assert!(!wanted("cover.jpg", &filters));
    assert!(!wanted("item.torrent", &filters));
    assert!(wanted("apk/game.apk", &filters));
}

#[test]
fn filters_match_the_end_of_the_path_only() {
    assert!(!wanted("apk/readme.txt", &["*apk"]));
    assert!(!wanted("gameapk", &["*apk"]));
    assert!(wanted("game.tar.gz", &["*tar.gz"]));
}

#[test]
fn the_dot_of_a_filter_is_optional() {
    assert_eq!(
        normalize_extension_filters(&strings(&["*.ApK", "**apk", "*..apk"])).unwrap(),
        strings(&[".apk", ".apk", ".apk"])
    );
    assert_eq!(
        normalize_extension_excludes(&strings(&["##JPG", "#.jpg"])).unwrap(),
        strings(&[".jpg", ".jpg"])
    );
}

#[test]
fn args_are_split_by_their_marks() {
    assert_eq!(
        split_extension_filter_args(&strings(&["*a", "#b", "*c"])).unwrap(),
        (strings(&["*a", "*c"]), strings(&["#b"]))
    );
}

#[test]
fn a_filter_without_a_mark_is_an_error() {
    assert_eq!(
        split_extension_filter_args(&strings(&["*a", "jpg", "zip"])),
        Err(IaGetError::UrlFormat(
            "Invalid filter 'jpg'. Use *ext to include or #ext to exclude, for example *apk or #jpg"
                .to_string()
        ))
    );
    assert_eq!(
        normalize_extension_filters(&strings(&["apk"])),
        Err(IaGetError::UrlFormat(
            "Invalid filter 'apk'. Filters must start with *, for example *apk or *xapk"
                .to_string()
        ))
    );
    assert_eq!(
        normalize_extension_excludes(&strings(&["*apk"])),
        Err(IaGetError::UrlFormat(
            "Invalid exclude '*apk'. Excludes must start with #, for example #jpg or #torrent"
                .to_string()
        ))
    );
}

#[test]
fn a_filter_without_an_extension_is_an_error() {
    assert_eq!(
        parse_extension_filters(&strings(&["*."])),
        Err(IaGetError::UrlFormat(
            "Invalid filter. Provide an extension after *, for example *apk".to_string()
        ))
    );
    assert_eq!(
        parse_extension_filters(&strings(&["#"])),
        Err(IaGetError::UrlFormat(
            "Invalid exclude. Provide an extension after #, for example #jpg".to_string()
        ))
    );
}

#[test]
fn more_includes_let_more_in() {
    assert!(!wanted("a.zip", &["*apk"]));
    assert!(wanted("a.zip", &["*apk", "*zip"]));
    assert!(wanted("a.zip", &["#apk"]));
    assert!(!wanted("a.zip", &["#apk", "#zip"]));
}

#[test]
fn default_filters_are_empty() {
    let spec = ia_get::filters::ExtensionFilterSpec::default();
    assert!(spec.includes.is_empty() && spec.excludes.is_empty());
}
