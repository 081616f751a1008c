//! URLs.

use ia_get::error::IaGetError;
use ia_get::urls::{
    download_url, get_xml_url, joined_or_base, parse_request_url, validate_archive_url,
};

#[test]
fn check_valid_pattern() {
    assert!(validate_archive_url("https://archive.org/details/Valid-Pattern").is_ok());
    assert!(validate_archive_url("https://archive.org/details/Valid-Pattern/").is_ok());
    assert!(validate_archive_url("https://archive.org/details/test123").is_ok());
    assert!(validate_archive_url("https://archive.org/details/test123/").is_ok());
    assert!(validate_archive_url("https://archive.org/details/test_file-name.data").is_ok());
    assert!(validate_archive_url("https://archive.org/details/test_file-name.data/").is_ok());
    assert!(validate_archive_url("https://archive.org/details/user@domain").is_ok());
    assert!(validate_archive_url("https://archive.org/details/user@domain/").is_ok());
}

#[test]
fn check_invalid_pattern() {
    assert!(validate_archive_url("https://archive.org/details/Invalid-Pattern-*").is_err());
    assert!(validate_archive_url("https://archive.org/details/").is_err()); // This should still be an error (empty identifier)
    assert!(validate_archive_url("https://example.com/details/test").is_err());
    assert!(validate_archive_url("http://archive.org/details/test").is_err());
    assert!(validate_archive_url("https://archive.org/details/test/extra").is_err());
    assert!(validate_archive_url("https://archive.org/details/test//").is_err());
    // Multiple trailing slashes
}

#[test]
fn check_get_xml_url() {
    assert_eq!(
        get_xml_url("https://archive.org/details/item1"),
        "https://archive.org/download/item1/item1_files.xml"
    );
    assert_eq!(
        get_xml_url("https://archive.org/details/item1/"), // With trailing slash
        "https://archive.org/download/item1/item1_files.xml"
    );
    assert_eq!(
        get_xml_url("https://archive.org/details/another-item_v2.0"),
        "https://archive.org/download/another-item_v2.0/another-item_v2.0_files.xml"
    );
    assert_eq!(
        get_xml_url("https://archive.org/details/another-item_v2.0/"), // With trailing slash
        "https://archive.org/download/another-item_v2.0/another-item_v2.0_files.xml"
    );
}

#[test]
fn rejected_urls_are_named() {
    for url in ["", "https://archive.org/details//", "x https://archive.org/details/a", "https://archive.org/details/a\n"] {
        assert_eq!(validate_archive_url(url), Err(IaGetError::UrlFormat(url.to_string())));
    }
}

#[test]
fn identifiers_are_made_of_few_characters() {
    for code in 0u32..0x250 {
        let Some(c) = char::from_u32(code) else { continue };
        let allowed = c.is_ascii_alphanumeric() || "_-.@".contains(c);
        let url = format!("https://archive.org/details/a{c}b");
        assert_eq!(validate_archive_url(&url).is_ok(), allowed);
    }
}

#[test]
fn identifiers_may_name_the_directory_of_details() {
    assert!(validate_archive_url("https://archive.org/details/details/").is_ok());
    assert_eq!(
        get_xml_url("https://archive.org/details/details/"),
        "https://archive.org/download/details/details_files.xml"
    );
}

#[test]
fn urls_are_taken_apart() {
    let url = parse_request_url("HTTPS://Archive.ORG:443/download/a b?q=1#f").unwrap();
    assert_eq!(url.full, "https://archive.org/download/a%20b?q=1#f");
    assert_eq!(url.scheme, "https");
    assert_eq!(url.host.as_deref(), Some("archive.org"));
    assert_eq!(url.path, "/download/a%20b");
    let data = parse_request_url("data:x").unwrap();
    assert_eq!(data.host, None);
}

#[test]
fn texts_that_are_no_urls_are_errors() {
    assert_eq!(
        parse_request_url("archive.org"),
        Err(IaGetError::UrlFormat("relative URL without a base".to_string()))
    );
    assert_eq!(
        parse_request_url("https://"),
        Err(IaGetError::UrlFormat("empty host".to_string()))
    );
}

#[test]
fn files_lie_beside_their_list() {
    let base = parse_request_url("https://archive.org/download/item/item_files.xml").unwrap();
    assert_eq!(
        download_url(&base, "apk/my game.apk"),
        "https://archive.org/download/item/apk/my%20game.apk"
    );
    assert_eq!(download_url(&base, "http://["), base.full);
    assert_eq!(joined_or_base(&base, None), base.full);
    assert_eq!(joined_or_base(&base, Some("u".to_string())), "u");
}
