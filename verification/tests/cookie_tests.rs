//! Cookies.

use ia_get::cookies::{
    cookie_applies_to_url, cookie_bytes, cookie_domain_matches, cookie_header_for,
    cookie_header_from_input, cookie_header_from_input_at, cookie_header_from_netscape_file,
    cookie_header_from_netscape_file_at, cookie_header_value, cookie_path_matches,
    download_cookie_header, download_cookie_header_at, parse_netscape_cookie, NetscapeCookie,
};
use ia_get::error::IaGetError;
use ia_get::headers::{download_headers, header_value};
use ia_get::urls::{parse_request_url, RequestUrl};

fn cookie_test_url(path: &str) -> RequestUrl {
    parse_request_url(&format!("https://archive.org{path}")).unwrap()
}

#[test]
fn cookie_header_accepts_raw_cookie_string() {
    assert_eq!(
        cookie_header_from_input(
            "logged-in-user=yes; logged-in-sig=abc123",
            None,
            &cookie_test_url("/download/item/item_files.xml"),
        )
        .unwrap(),
        "logged-in-user=yes; logged-in-sig=abc123"
    );
}

#[test]
fn cookie_header_parses_netscape_cookie_file_content() {
    let cookies = "# Netscape HTTP Cookie File\n\
.archive.org\tTRUE\t/\tFALSE\t2145916800\tlogged-in-user\tyes\n\
archive.org\tFALSE\t/\tTRUE\t2145916800\tlogged-in-sig\tabc123\n";

    assert_eq!(
        cookie_header_from_netscape_file(
            cookies,
            &cookie_test_url("/download/item/item_files.xml")
        )
        .unwrap(),
        "logged-in-user=yes; logged-in-sig=abc123"
    );
}

#[test]
fn cookie_header_respects_domain_and_path_scoping() {
    let cookies = "# Netscape HTTP Cookie File\n\
.archive.org\tTRUE\t/download\tFALSE\t2145916800\tdownload-root\tyes\n\
archive.org\tFALSE\t/account\tFALSE\t2145916800\taccount-only\tnope\n\
example.com\tFALSE\t/download\tFALSE\t2145916800\twrong-domain\tnope\n\
archive.org\tFALSE\t/download/private\tFALSE\t2145916800\tprivate-only\tsecret\n";

    assert_eq!(
        cookie_header_from_netscape_file(cookies, &cookie_test_url("/download/item/file.zip"))
            .unwrap(),
        "download-root=yes"
    );

    assert_eq!(
        cookie_header_from_netscape_file(
            cookies,
            &cookie_test_url("/download/private/file.zip")
        )
        .unwrap(),
        "download-root=yes; private-only=secret"
    );
}

#[test]
fn cookie_header_ignores_expired_netscape_cookies() {
    let cookies = "archive.org\tFALSE\t/\tFALSE\t1\told\tvalue\n\
archive.org\tFALSE\t/\tFALSE\t2145916800\tcurrent\tvalue\n";

    assert_eq!(
        cookie_header_from_netscape_file(
            cookies,
            &cookie_test_url("/download/item/item_files.xml")
        )
        .unwrap(),
        "current=value"
    );
}

fn cookie(domain: &str, subdomains: &str, path: &str, secure: &str, expires: &str) -> NetscapeCookie {
    parse_netscape_cookie(&format!("{domain}\t{subdomains}\t{path}\t{secure}\t{expires}\tname\tvalue"))
        .unwrap()
}

#[test]
fn lines_are_read_field_by_field() {
    assert_eq!(
        parse_netscape_cookie("  ..Archive.ORG\ttrue\t/x\tfalse\t12\tn\tv\textra \n"),
        Some(NetscapeCookie {
            domain: "archive.org".to_string(),
            include_subdomains: true,
            path: "/x".to_string(),
            secure: false,
            expires: Some(12),
            name: "n".to_string(),
            value: "v".to_string(),
        })
    );
}

#[test]
fn lines_without_seven_fields_hold_no_cookie() {
    assert_eq!(parse_netscape_cookie(""), None);
    assert_eq!(parse_netscape_cookie("   "), None);
    assert_eq!(parse_netscape_cookie("# a\tb\tc\td\te\tf\tg"), None);
    assert_eq!(parse_netscape_cookie("a\tb\tc\td\te\tf"), None);
}

#[test]
fn the_http_only_mark_changes_nothing() {
    let line = "archive.org\tFALSE\t/\tTRUE\t5\tn\tv";
    assert!(parse_netscape_cookie(line).is_some());
    assert_eq!(parse_netscape_cookie(&format!("#HttpOnly_{line}")), parse_netscape_cookie(line));
}

#[test]
fn sessions_do_not_expire() {
    assert_eq!(cookie("a", "TRUE", "/", "TRUE", "0").expires, None);
    assert_eq!(cookie("a", "TRUE", "/", "TRUE", "soon").expires, None);
    assert_eq!(cookie("a", "TRUE", "/", "TRUE", "+9").expires, Some(9));
    assert_eq!(cookie("a", "TRUE", "/", "TRUE", "18446744073709551616").expires, None);
}

#[test]
fn domains_cover_what_lies_below_only_if_they_say_so() {
    let url = parse_request_url("https://ia800.US.archive.org/").unwrap();
    assert!(cookie_domain_matches(&cookie(".archive.org", "TRUE", "/", "FALSE", "0"), &url));
    assert!(!cookie_domain_matches(&cookie("archive.org", "FALSE", "/", "FALSE", "0"), &url));
    assert!(cookie_domain_matches(&cookie("IA800.us.archive.org", "FALSE", "/", "FALSE", "0"), &url));
    assert!(!cookie_domain_matches(&cookie("chive.org", "TRUE", "/", "FALSE", "0"), &url));
    let nowhere = parse_request_url("data:text/plain,x").unwrap();
    assert!(!cookie_domain_matches(&cookie("archive.org", "TRUE", "/", "FALSE", "0"), &nowhere));
}

#[test]
fn paths_cover_whole_segments() {
    let url = cookie_test_url("/download/item");
    for (path, covers) in [
        ("", true), ("/", true), ("/download", true), ("/download/", true), ("/down", false),
        ("/download/item", true), ("/download/item/", false), ("/download/items", false),
    ] {
        assert_eq!(cookie_path_matches(&cookie("a", "TRUE", path, "FALSE", "0"), &url), covers);
    }
}

#[test]
fn cookies_apply_until_they_expire_and_over_https_if_secure() {
    let url = cookie_test_url("/");
    let limited = cookie("archive.org", "FALSE", "/", "TRUE", "100");
    assert!(cookie_applies_to_url(&limited, &url, 99));
    assert!(!cookie_applies_to_url(&limited, &url, 100));
    let open = parse_request_url("http://archive.org/").unwrap();
    assert!(!cookie_applies_to_url(&limited, &open, 0));
    assert!(cookie_applies_to_url(&cookie("archive.org", "FALSE", "/", "no", "100"), &open, 0));
}

#[test]
fn the_header_holds_what_applies_in_the_order_of_the_file() {
    let file = "archive.org\tTRUE\t/\tFALSE\t10\ta\t1\r\n# note\narchive.org\tTRUE\t/\tFALSE\t20\tb\t2\n\
#HttpOnly_archive.org\tTRUE\t/\tFALSE\t0\tc\t3";
    let url = cookie_test_url("/");
    assert_eq!(cookie_header_from_netscape_file_at(file, &url, 5), "a=1; b=2; c=3");
    assert_eq!(cookie_header_from_netscape_file_at(file, &url, 10), "b=2; c=3");
    assert_eq!(cookie_header_from_netscape_file_at(file, &url, 20), "c=3");
    assert_eq!(cookie_header_from_netscape_file_at("", &url, 20), "");
}

#[test]
fn the_header_of_a_second_is_none_where_nothing_applies() {
    let file = "archive.org\tTRUE\t/\tFALSE\t10\ta\t1";
    let url = cookie_test_url("/");
    let at = |now| download_cookie_header_at(Some("cookies.txt"), Some(file), &url, now);
    assert_eq!(at(9), Some("a=1".to_string()));
    assert_eq!(at(10), None);
    assert_eq!(download_cookie_header_at(None, Some(file), &url, 9), None);
    assert_eq!(download_cookie_header_at(Some(" x=y "), None, &url, 9), Some("x=y".to_string()));
    assert_eq!(cookie_header_from_input_at(" x=y ", None, &url, 9), "x=y");
    assert_eq!(cookie_header_from_input_at("cookies.txt", Some(file), &url, 9), "a=1");
}

#[test]
fn each_request_gets_the_cookies_of_its_own_url() {
    let file = "archive.org\tFALSE\t/download/item/private\tFALSE\t0\tkey\tsecret";
    let input = Some("cookies.txt");
    assert_eq!(
        cookie_header_for(input, Some(file), "https://archive.org/download/item/item_files.xml"),
        Ok(None)
    );
    assert_eq!(
        cookie_header_for(input, Some(file), "https://archive.org/download/item/private/a.zip"),
        Ok(Some("key=secret".to_string()))
    );
    assert_eq!(cookie_header_for(None, None, "not a url"), Ok(None));
    assert_eq!(
        cookie_header_for(input, Some(file), "not a url"),
        Err(IaGetError::UrlFormat("relative URL without a base".to_string()))
    );
}

#[test]
fn no_cookies_mean_no_header() {
    let url = cookie_test_url("/");
    assert_eq!(download_cookie_header(None, None, &url), Ok(None));
    assert_eq!(download_cookie_header(Some("  "), None, &url), Ok(None));
    assert_eq!(download_cookie_header(Some("file"), Some("# empty"), &url), Ok(None));
    assert_eq!(
        download_cookie_header(Some(" a=b "), None, &url),
        Ok(Some("a=b".to_string()))
    );
    assert_eq!(cookie_header_value(None, None, &url), Ok(None));
    assert_eq!(cookie_header_value(Some("a=б"), None, &url), Ok(Some("a=б".as_bytes().to_vec())));
}

#[test]
fn control_characters_cannot_be_sent() {
    let url = cookie_test_url("/");
    assert_eq!(
        cookie_header_value(Some("a=\u{1}"), None, &url),
        Err(IaGetError::Network("Invalid cookie header: failed to parse header value".to_string()))
    );
    assert_eq!(
        cookie_bytes(&Some("a\u{7f}".to_string())),
        Err(IaGetError::Network("Invalid cookie header: failed to parse header value".to_string()))
    );
    assert_eq!(cookie_bytes(&None), Ok(None));
    assert_eq!(header_value("a\tb", "x"), Ok(b"a\tb".to_vec()));
    for code in 0u8..128 {
        let text = format!("a{}b", char::from(code));
        let valid = code == 9 || (code >= 32 && code != 127);
        assert_eq!(header_value(&text, "Bad").is_ok(), valid);
    }
}

#[test]
fn requests_ask_for_what_is_missing() {
    let headers = download_headers(Some("a=b"), 0).unwrap();
    assert_eq!(headers.cookie, Some(b"a=b".to_vec()));
    assert_eq!(headers.range, None);
    let headers = download_headers(None, 1234).unwrap();
    assert_eq!(headers.cookie, None);
    assert_eq!(headers.range, Some(b"bytes=1234-".to_vec()));
    assert_eq!(
        download_headers(Some("\n"), 1),
        Err(IaGetError::Network(
            "Invalid cookie header value: failed to parse header value".to_string()
        ))
    );
}
