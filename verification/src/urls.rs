//! URLs of archive.org items and of their files.

use regex::Regex;
use reqwest::Url;

use vstd::prelude::*;

use crate::error::IaGetError;
use crate::text;

verus! {

// ---------------------------------------------------------------------------
// Details pages
// ---------------------------------------------------------------------------

/// The form of the URL of a details page.
pub const URL_PATTERN: &'static str = r"^https://archive\.org/details/[a-zA-Z0-9_\-.@]+/?$";

/// What the URL of a details page starts with.
pub open spec fn details_prefix() -> Seq<char> {
    "https://archive.org/details/"@
}

/// The characters of an identifier.
pub open spec fn identifier_char(c: char) -> bool {
    ||| 'a' <= c <= 'z'
    ||| 'A' <= c <= 'Z'
    ||| '0' <= c <= '9'
    ||| c == '_'
    ||| c == '-'
    ||| c == '.'
    ||| c == '@'
}

/// Whether `s` is the identifier of an item.
pub open spec fn identifier(s: Seq<char>) -> bool {
    s.len() > 0 && forall|i: int| 0 <= i < s.len() ==> identifier_char(#[trigger] s[i])
}

/// `s` without one slash at its end.
pub open spec fn without_slash(s: Seq<char>) -> Seq<char> {
    if s.len() > 0 && s.last() == '/' {
        s.drop_last()
    } else {
        s
    }
}

/// What stands behind the prefix of a details page, without a slash at its end.
pub open spec fn details_identifier(url: Seq<char>) -> Seq<char> {
    without_slash(url.skip(details_prefix().len() as int))
}

/// Whether `url` is the URL of a details page: the prefix, an identifier, and a
/// slash or none.
pub open spec fn details_url(url: Seq<char>) -> bool {
    text::has_prefix(url, details_prefix()) && identifier(details_identifier(url))
}

/// `Regex::new` compiles a pattern and `Regex::is_match` searches a text for it.
/// The contract speaks of the one pattern of details pages, which is anchored
/// at both ends of the text: it matches the prefix, one or more of the listed
/// ASCII characters, and at most one slash.
#[verifier::external_body]
fn matches_pattern(pattern: &str, url: &str) -> (r: bool)
    requires
        pattern@ == URL_PATTERN@,
    ensures
        r == details_url(url@),
{
    Regex::new(pattern).expect("Invalid URL regex pattern").is_match(url)
}

/// Checks that `url` is the URL of a details page.
pub fn validate_archive_url(url: &str) -> (r: Result<(), IaGetError>)
    ensures
        match r {
            Ok(()) => details_url(url@),
            Err(e) => !details_url(url@) && e is UrlFormat && e.message() == url@,
        },
{
    if matches_pattern(URL_PATTERN, url) {
        proof {
            lemma_details_segment(url@);
        }
        let chars = text::chars_of(url);
        let mark = text::chars_of("/details/");
        proof {
            reveal_strlit("/details/");
        }
        let at = text::find_piece(&chars, &mark);
        if at < chars.len() {
            let rest = text::part(&chars, at + mark.len(), chars.len());
            let end = text::find_piece(&rest, &mark);
            let segment = text::part(&rest, 0, end);
            let name = text::trim_end_of(&segment, '/');
            assert(rest@ =~= url@.skip(details_prefix().len() as int));
            assert(segment@ =~= rest@);
            if name.len() > 0 {
                return Ok(());
            }
        }
    }
    Err(IaGetError::UrlFormat(url.to_owned()))
}

/// In the URL of a details page `/details/` stands once, before the identifier.
proof fn lemma_details_segment(url: Seq<char>)
    requires
        details_url(url),
    ensures
        text::first_piece(url, "/details/"@) + "/details/"@.len() == details_prefix().len(),
        text::first_piece(url, "/details/"@) < url.len(),
        ({
            let rest = url.skip(details_prefix().len() as int);
            &&& text::first_piece(rest, "/details/"@) == rest.len()
            &&& text::trim_end_char(rest, '/') == details_identifier(url)
        }),
{
    reveal_strlit("/details/");
    reveal_strlit("https://archive.org/details/");
    let mark = "/details/"@;
    let prefix = details_prefix();
    assert(prefix.len() == 28 && mark.len() == 9);
    assert forall|i: int| 0 <= i < 28 implies url[i] == prefix[i] by {
        assert(url.take(28)[i] == prefix[i]);
    }
    assert(url.subrange(19, 28) =~= mark) by {
        assert forall|i: int| 0 <= i < 9 implies url[19 + i] == mark[i] by {}
    }
    assert forall|j: int| 0 <= j < 19 implies !#[trigger] text::occurs_at(url, mark, j) by {
        if text::occurs_at(url, mark, j) {
            assert(url.subrange(j, j + 9)[0] == mark[0]);
            assert(url.subrange(j, j + 9)[1] == mark[1]);
        }
    }
    text::lemma_first_piece(url, mark, 19);

    let rest = url.skip(28);
    let id = details_identifier(url);
    assert forall|i: int| 0 <= i < id.len() implies #[trigger] rest[i] != '/' by {
        assert(identifier_char(id[i]));
    }
    assert forall|j: int| 0 <= j < rest.len() implies !#[trigger] text::occurs_at(rest, mark, j) by {
        if text::occurs_at(rest, mark, j) {
            assert(rest.subrange(j, j + 9)[0] == mark[0]);
            assert(rest[j] == '/');
        }
    }
    text::lemma_first_piece(rest, mark, rest.len() as int);
    assert(identifier_char(id[id.len() - 1]));
    assert(text::trim_end_while(id, text::equals('/')) == id);
    if rest.len() > 0 && rest.last() == '/' {
        assert(rest.drop_last() == id);
    }
    assert(text::trim_end_while(rest, text::equals('/')) == id);
}

// ---------------------------------------------------------------------------
// The list of files
// ---------------------------------------------------------------------------

/// The last segment of a URL, without slashes behind it.
pub open spec fn last_segment(url: Seq<char>) -> Seq<char> {
    text::split(text::trim_end_char(url, '/'), '/').last()
}

/// The URL of the list of files of the item `id`.
pub open spec fn files_list_url(id: Seq<char>) -> Seq<char> {
    "https://archive.org/download/"@ + id + "/"@ + id + "_files.xml"@
}

/// The URL of the list of files that belongs to a details page.
pub fn get_xml_url(original_url: &str) -> (r: String)
    ensures
        r@ == files_list_url(last_segment(original_url@)),
{
    let chars = text::chars_of(original_url);
    let base = text::trim_end_of(&chars, '/');
    let pieces = text::split_at_char(&base, '/');
    let ghost all = text::split(base@, '/');
    let id = &pieces[pieces.len() - 1];
    assert(id@ == all.last());
    let mut out = text::chars_of("https://archive.org/download/");
    text::extend(&mut out, id);
    let slash = text::chars_of("/");
    text::extend(&mut out, &slash);
    text::extend(&mut out, id);
    let tail = text::chars_of("_files.xml");
    text::extend(&mut out, &tail);
    text::string_of(&out)
}

/// An identifier holds no slash.
proof fn lemma_identifier_no_slash(id: Seq<char>)
    requires
        identifier(id),
    ensures
        !id.contains('/'),
{
    if id.contains('/') {
        let i = choose|i: int| 0 <= i < id.len() && id[i] == '/';
        assert(identifier_char(id[i]));
    }
}

/// The last segment of a details page is its identifier. So both forms of the
/// URL, with and without a slash, lead to the same list of files.
pub proof fn law_details_page_leads_to_its_files(url: Seq<char>)
    requires
        details_url(url),
    ensures
        last_segment(url) == details_identifier(url),
        files_list_url(last_segment(url)) == files_list_url(details_identifier(url)),
{
    let prefix = details_prefix();
    let id = details_identifier(url);
    reveal_strlit("https://archive.org/details/");
    assert(prefix.len() == 28);
    let base = prefix + id;
    let rest = url.skip(28);
    assert(url =~= url.take(28) + rest);
    if rest.len() > 0 && rest.last() == '/' {
        assert(url.drop_last() =~= base);
        assert(url.last() == '/');
    } else {
        assert(url =~= base);
    }
    assert(identifier_char(id[id.len() - 1]));
    assert(base.last() == id.last());
    assert(text::trim_end_while(base, text::equals('/')) == base);
    assert(text::trim_end_while(url, text::equals('/')) == base);
    lemma_identifier_no_slash(id);
    let head = prefix.drop_last();
    assert(prefix =~= head + seq!['/']);
    assert(base =~= head + seq!['/'] + id);
    text::lemma_split_append(head, id, '/');
}

/// Every identifier has a details page, in both forms.
pub proof fn law_identifier_has_details_page(id: Seq<char>)
    requires
        identifier(id),
    ensures
        details_url(details_prefix() + id),
        details_url(details_prefix() + id + "/"@),
        details_identifier(details_prefix() + id) == id,
        details_identifier(details_prefix() + id + "/"@) == id,
{
    reveal_strlit("/");
    let prefix = details_prefix();
    let n = prefix.len() as int;
    let a = prefix + id;
    let b = prefix + id + "/"@;
    assert(a.take(n) =~= prefix);
    assert(b.take(n) =~= prefix);
    assert(a.skip(n) =~= id);
    assert(b.skip(n) =~= id.push('/'));
    assert(id.push('/').drop_last() =~= id);
    assert(identifier_char(id[id.len() - 1]));
}

/// A URL is that of a details page exactly where it is the prefix, one or more
/// letters, digits, underscores, hyphens, dots and at signs of any number, and a slash
/// or none.
pub proof fn law_details_pages_by_their_characters(id: Seq<char>, rest: Seq<char>)
    requires
        rest.len() == 0 || rest == seq!['/'],
        !id.contains('/'),
    ensures
        details_url("https://archive.org/details/"@ + id + rest) <==> id.len() > 0 && forall|i: int|
            0 <= i < id.len() ==> {
                ||| 'a' <= (#[trigger] id[i]) <= 'z'
                ||| 'A' <= id[i] <= 'Z'
                ||| '0' <= id[i] <= '9'
                ||| seq!['_', '-', '.', '@'].contains(id[i])
            },
        details_url("https://archive.org/details/"@ + id + rest) ==> files_list_url(
            last_segment("https://archive.org/details/"@ + id + rest),
        ) == "https://archive.org/download/"@ + id + seq!['/'] + id + "_files.xml"@,
{
    reveal_strlit("/");
    assert("/"@ =~= seq!['/']);
    let prefix = "https://archive.org/details/"@;
    let url = prefix + id + rest;
    assert(url.take(prefix.len() as int) =~= prefix);
    assert(url.skip(prefix.len() as int) =~= id + rest);
    if rest.len() == 0 {
        assert(id + rest =~= id);
        if id.len() > 0 && id.last() == '/' {
            assert(id[id.len() - 1] == '/');
        }
    } else {
        assert((id + rest).drop_last() =~= id);
    }
    assert(details_identifier(url) == id);
    if details_url(url) {
        law_details_page_leads_to_its_files(url);
        assert forall|i: int| 0 <= i < id.len() implies {
            ||| 'a' <= (#[trigger] id[i]) <= 'z'
            ||| 'A' <= id[i] <= 'Z'
            ||| '0' <= id[i] <= '9'
            ||| seq!['_', '-', '.', '@'].contains(id[i])
        } by {
            assert(identifier_char(id[i]));
            lemma_signs(id[i]);
        }
    }
    if id.len() > 0 && forall|i: int|
        0 <= i < id.len() ==> {
            ||| 'a' <= (#[trigger] id[i]) <= 'z'
            ||| 'A' <= id[i] <= 'Z'
            ||| '0' <= id[i] <= '9'
            ||| seq!['_', '-', '.', '@'].contains(id[i])
        } {
        assert forall|i: int| 0 <= i < id.len() implies identifier_char(#[trigger] id[i]) by {
            lemma_signs(id[i]);
        }
    }
}

/// The four signs of identifiers.
proof fn lemma_signs(c: char)
    ensures
        seq!['_', '-', '.', '@'].contains(c) <==> c == '_' || c == '-' || c == '.' || c == '@',
{
    let signs = seq!['_', '-', '.', '@'];
    assert(signs[0] == '_' && signs[1] == '-' && signs[2] == '.' && signs[3] == '@');
    if signs.contains(c) {
        let i = choose|i: int| 0 <= i < signs.len() && signs[i] == c;
        assert(0 <= i < 4);
    }
}

/// No other URL is that of a details page.
pub proof fn law_details_pages_start_alike(url: Seq<char>)
    requires
        details_url(url),
    ensures
        url == "https://archive.org/details/"@ + details_identifier(url) || url
            == "https://archive.org/details/"@ + details_identifier(url) + seq!['/'],
        !details_identifier(url).contains('/'),
{
    let prefix = details_prefix();
    let id = details_identifier(url);
    let tail = url.skip(prefix.len() as int);
    lemma_identifier_no_slash(id);
    assert(url =~= prefix + tail);
    if tail.len() > 0 && tail.last() == '/' {
        assert(url =~= prefix + id + seq!['/']);
    }
}

// ---------------------------------------------------------------------------
// Parsed URLs
// ---------------------------------------------------------------------------

/// What the library reads of a parsed URL.
#[derive(Debug, Clone, PartialEq, Eq)]
pub struct RequestUrl {
    /// The whole URL in its normal form.
    pub full: String,
    /// The scheme, in lower case.
    pub scheme: String,
    /// The host, where there is one.
    pub host: Option<String>,
    /// The path.
    pub path: String,
}

impl RequestUrl {
    /// The whole URL, its scheme, host and path.
    pub open spec fn parts(self) -> (Seq<char>, Seq<char>, Option<Seq<char>>, Seq<char>) {
        (self.full@, self.scheme@, text::option_text(self.host), self.path@)
    }
}

/// What `reqwest::Url::parse` makes of a text: the normal form, scheme, host and
/// path of the URL, or the message of its error.
pub uninterp spec fn parsed_url(text: Seq<char>) -> Result<
    (Seq<char>, Seq<char>, Option<Seq<char>>, Seq<char>),
    Seq<char>,
>;

/// What `reqwest::Url::join` makes of a base and a reference: the normal form of
/// the joined URL, or nothing where one of them cannot be parsed.
pub uninterp spec fn joined_url(base: Seq<char>, reference: Seq<char>) -> Option<Seq<char>>;

/// Whether a text parses to the given URL.
pub open spec fn parses_to(text: Seq<char>, url: RequestUrl) -> bool {
    parsed_url(text) == Ok::<(Seq<char>, Seq<char>, Option<Seq<char>>, Seq<char>), Seq<char>>(
        url.parts(),
    )
}

/// `reqwest::Url::parse` parses an absolute URL; `as_str`, `scheme`, `host_str`
/// and `path` return its parts. The result is a function of the text.
#[verifier::external_body]
fn parse_url(text: &str) -> (r: Result<RequestUrl, String>)
    ensures
        match r {
            Ok(url) => parses_to(text@, url),
            Err(message) => parsed_url(text@) == Err::<
                (Seq<char>, Seq<char>, Option<Seq<char>>, Seq<char>),
                Seq<char>,
            >(message@),
        },
{
    let url = Url::parse(text).map_err(|e| e.to_string())?;
    Ok(RequestUrl {
        full: url.as_str().to_string(),
        scheme: url.scheme().to_string(),
        host: url.host_str().map(|host| host.to_string()),
        path: url.path().to_string(),
    })
}

/// `reqwest::Url::join` resolves a reference against a base URL. The result is
/// a function of the two texts.
#[verifier::external_body]
fn join_url(base: &str, reference: &str) -> (r: Option<String>)
    ensures
        text::option_text(r) == joined_url(base@, reference@),
{
    Url::parse(base).ok()?.join(reference).ok().map(|url| url.to_string())
}

/// Parses a URL.
pub fn parse_request_url(url: &str) -> (r: Result<RequestUrl, IaGetError>)
    ensures
        match r {
            Ok(parsed) => parses_to(url@, parsed),
            Err(e) => e is UrlFormat && parsed_url(url@) == Err::<
                (Seq<char>, Seq<char>, Option<Seq<char>>, Seq<char>),
                Seq<char>,
            >(e.message()),
        },
{
    match parse_url(url) {
        Ok(parsed) => Ok(parsed),
        Err(message) => Err(IaGetError::UrlFormat(message)),
    }
}

/// The URL of a file where joining succeeded, else the base.
pub open spec fn file_url(base: Seq<char>, joined: Option<Seq<char>>) -> Seq<char> {
    match joined {
        Some(url) => url,
        None => base,
    }
}

/// Takes the joined URL, or the base where there is none.
pub fn joined_or_base(base: &RequestUrl, joined: Option<String>) -> (r: String)
    ensures
        r@ == file_url(base.full@, text::option_text(joined)),
{
    match joined {
        Some(url) => url,
        None => base.full.clone(),
    }
}

/// The URL from which the file `name` is downloaded.
pub fn download_url(base: &RequestUrl, name: &str) -> (r: String)
    ensures
        r@ == file_url(base.full@, joined_url(base.full@, name@)),
{
    joined_or_base(base, join_url(base.full.as_str(), name))
}

/// A file comes from where its name leads, and from the base only where it leads
/// nowhere.
pub proof fn law_files_come_from_where_their_name_leads(base: Seq<char>, joined: Option<Seq<char>>)
    ensures
        joined is Some ==> file_url(base, joined) == joined->0,
        joined is None ==> file_url(base, joined) == base,
{
}

} // verus!
