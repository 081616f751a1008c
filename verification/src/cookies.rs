//! Cookies: the Netscape cookie file, and which cookies go with which request.

use std::time::{Duration, SystemTime, SystemTimeError, UNIX_EPOCH};

use vstd::prelude::*;

use crate::error::IaGetError;
use crate::headers;
use crate::numbers;
use crate::text;
use crate::units;
use crate::urls;
use crate::urls::RequestUrl;

verus! {

// ---------------------------------------------------------------------------
// Lines of the cookie file
// ---------------------------------------------------------------------------

/// A cookie as the Netscape cookie file describes it.
#[derive(Debug, Clone, PartialEq, Eq)]
pub struct NetscapeCookie {
    pub domain: String,
    pub include_subdomains: bool,
    pub path: String,
    pub secure: bool,
    pub expires: Option<u64>,
    pub name: String,
    pub value: String,
}

/// What a cookie says.
pub struct CookieData {
    pub domain: Seq<char>,
    pub include_subdomains: bool,
    pub path: Seq<char>,
    pub secure: bool,
    pub expires: Option<u64>,
    pub name: Seq<char>,
    pub value: Seq<char>,
}

impl NetscapeCookie {
    /// What the cookie says.
    pub open spec fn view(&self) -> CookieData {
        CookieData {
            domain: self.domain@,
            include_subdomains: self.include_subdomains,
            path: self.path@,
            secure: self.secure,
            expires: self.expires,
            name: self.name@,
            value: self.value@,
        }
    }
}

/// The mark of cookies that scripts may not read.
pub open spec fn http_only() -> Seq<char> {
    "#HttpOnly_"@
}

/// A line without white space around it and without the mark of cookies that
/// scripts may not read.
pub open spec fn cookie_text(line: Seq<char>) -> Seq<char> {
    let line = text::trimmed(line);
    if text::has_prefix(line, http_only()) {
        line.skip(http_only().len() as int)
    } else {
        line
    }
}

/// Whether a word means true.
pub open spec fn says_true(word: Seq<char>) -> bool {
    text::lower(word) == "true"@
}

/// The second at which a cookie expires, where it does: a number that is not 0.
pub open spec fn expiry(word: Seq<char>) -> Option<u64> {
    match numbers::unsigned_number(word, u64::MAX as nat) {
        Some(n) => if n == 0 {
            None
        } else {
            Some(n as u64)
        },
        None => None,
    }
}

/// The cookie of a line, where it has one: seven fields or more between tabs,
/// and no comment.
pub open spec fn netscape_cookie(line: Seq<char>) -> Option<CookieData> {
    let line = cookie_text(line);
    let fields = text::split(line, '\t');
    if line.len() == 0 || line[0] == '#' || fields.len() < 7 {
        None
    } else {
        Some(
            CookieData {
                domain: text::lower(text::trim_start_char(fields[0], '.')),
                include_subdomains: says_true(fields[1]),
                path: fields[2],
                secure: says_true(fields[3]),
                expires: expiry(fields[4]),
                name: fields[5],
                value: fields[6],
            },
        )
    }
}

/// Tests whether a word means true.
fn is_true(word: &Vec<char>) -> (r: bool)
    ensures
        r == says_true(word@),
{
    let lowered = text::to_lower(word);
    text::is_text(&lowered, "true")
}

/// Reads the cookie of a line, where it has one.
pub fn parse_netscape_cookie(line: &str) -> (r: Option<NetscapeCookie>)
    ensures
        match r {
            Some(cookie) => netscape_cookie(line@) == Some(cookie@),
            None => netscape_cookie(line@) is None,
        },
{
    let chars = text::chars_of(line);
    let mut line = text::trim(&chars);
    let mark = text::chars_of("#HttpOnly_");
    if text::starts_with(&line, &mark) {
        line = text::part(&line, mark.len(), line.len());
        assert(line@ =~= text::trimmed(chars@).skip(http_only().len() as int));
    }
    assert(line@ == cookie_text(chars@));
    if line.len() == 0 || line[0] == '#' {
        return None;
    }
    let fields = text::split_at_char(&line, '\t');
    let ghost all = text::split(line@, '\t');
    if fields.len() < 7 {
        return None;
    }
    assert(forall|i: int| 0 <= i < 7 ==> fields[i]@ == all[i]);
    let expires = match numbers::parse_unsigned(&fields[4], u64::MAX) {
        Some(0) => None,
        Some(n) => Some(n),
        None => None,
    };
    let bare = text::trim_start_of(&fields[0], '.');
    let domain = text::to_lower(&bare);
    Some(
        NetscapeCookie {
            domain: text::string_of(&domain),
            include_subdomains: is_true(&fields[1]),
            path: text::string_of(&fields[2]),
            secure: is_true(&fields[3]),
            expires,
            name: text::string_of(&fields[5]),
            value: text::string_of(&fields[6]),
        },
    )
}

// ---------------------------------------------------------------------------
// Which cookies go with a request
// ---------------------------------------------------------------------------

/// Whether a cookie belongs to a host: to that of its domain, and to those below
/// it where it says so.
pub open spec fn domain_matches(cookie: CookieData, host: Option<Seq<char>>) -> bool {
    match host {
        Some(host) => {
            ||| text::lower(host) == cookie.domain
            ||| cookie.include_subdomains && text::has_suffix(
                text::lower(host),
                "."@ + cookie.domain,
            )
        },
        None => false,
    }
}

/// The path of a cookie; the root where it names none.
pub open spec fn scope(path: Seq<char>) -> Seq<char> {
    if path.len() == 0 {
        "/"@
    } else {
        path
    }
}

/// Whether a cookie belongs to a path: to its own, and to those below it.
pub open spec fn path_matches(cookie: CookieData, request: Seq<char>) -> bool {
    let scope = scope(cookie.path);
    ||| request == scope
    ||| {
        &&& text::has_prefix(request, scope)
        &&& scope.last() == '/' || (request.len() > scope.len() && request[scope.len() as int]
            == '/')
    }
}

/// Whether a cookie goes with a request to `url` at the second `now`.
pub open spec fn applies(cookie: CookieData, url: RequestUrl, now: u64) -> bool {
    &&& cookie.expires is Some ==> cookie.expires->0 > now
    &&& cookie.secure ==> url.scheme@ == "https"@
    &&& domain_matches(cookie, text::option_text(url.host))
    &&& path_matches(cookie, url.path@)
}

/// Tests whether a cookie belongs to the host of a URL.
pub fn cookie_domain_matches(cookie: &NetscapeCookie, url: &RequestUrl) -> (r: bool)
    ensures
        r == domain_matches(cookie@, text::option_text(url.host)),
{
    match &url.host {
        Some(host) => {
            let chars = text::chars_of(host.as_str());
            let host = text::to_lower(&chars);
            if text::is_text(&host, cookie.domain.as_str()) {
                return true;
            }
            if !cookie.include_subdomains {
                return false;
            }
            let mut below = text::chars_of(".");
            units::append_text(&mut below, cookie.domain.as_str());
            text::ends_with(&host, &below)
        },
        None => false,
    }
}

/// Tests whether a cookie belongs to the path of a URL.
pub fn cookie_path_matches(cookie: &NetscapeCookie, url: &RequestUrl) -> (r: bool)
    ensures
        r == path_matches(cookie@, url.path@),
{
    let mut scope = text::chars_of(cookie.path.as_str());
    if scope.len() == 0 {
        scope = text::chars_of("/");
    }
    proof {
        reveal_strlit("/");
    }
    let request = text::chars_of(url.path.as_str());
    if text::same(&request, &scope) {
        return true;
    }
    if !text::starts_with(&request, &scope) {
        return false;
    }
    scope[scope.len() - 1] == '/' || (request.len() > scope.len() && request[scope.len()] == '/')
}

/// Tests whether a cookie goes with a request to `url` at the second `now`.
pub fn cookie_applies_to_url(cookie: &NetscapeCookie, url: &RequestUrl, now: u64) -> (r: bool)
    ensures
        r == applies(cookie@, *url, now),
{
    if let Some(expires) = cookie.expires {
        if expires <= now {
            return false;
        }
    }
    if cookie.secure {
        let scheme = text::chars_of(url.scheme.as_str());
        if !text::is_text(&scheme, "https") {
            return false;
        }
    }
    cookie_domain_matches(cookie, url) && cookie_path_matches(cookie, url)
}

// ---------------------------------------------------------------------------
// The Cookie header
// ---------------------------------------------------------------------------

/// A cookie as it stands in the header.
pub open spec fn cookie_pair(cookie: CookieData) -> Seq<char> {
    cookie.name + "="@ + cookie.value
}

/// Whether a line holds a cookie that goes with the request.
pub open spec fn line_applies(line: Seq<char>, url: RequestUrl, now: u64) -> bool {
    netscape_cookie(line) is Some && applies(netscape_cookie(line)->0, url, now)
}

/// The cookies of the lines that go with the request, in the order of the lines.
pub open spec fn cookie_pairs(lines: Seq<Seq<char>>, url: RequestUrl, now: u64) -> Seq<Seq<char>>
    decreases lines.len(),
{
    if lines.len() == 0 {
        Seq::empty()
    } else {
        let before = cookie_pairs(lines.drop_last(), url, now);
        if line_applies(lines.last(), url, now) {
            before.push(cookie_pair(netscape_cookie(lines.last())->0))
        } else {
            before
        }
    }
}

/// The value of the header for the cookies of a file.
pub open spec fn netscape_header(content: Seq<char>, url: RequestUrl, now: u64) -> Seq<char> {
    text::join(cookie_pairs(text::lines(content), url, now), "; "@)
}

/// The header for the cookies of a file with a request to `url` at the second
/// `now`.
pub fn cookie_header_from_netscape_file_at(content: &str, url: &RequestUrl, now: u64) -> (r: String)
    ensures
        r@ == netscape_header(content@, *url, now),
{
    let chars = text::chars_of(content);
    let lines = text::lines_of(&chars);
    let ghost all = text::lines(content@);
    let mut pairs: Vec<Vec<char>> = Vec::new();
    let mut i: usize = 0;
    while i < lines.len()
        invariant
            i <= lines.len(),
            text::char_texts(lines@) == all,
            text::char_texts(pairs@) == cookie_pairs(all.take(i as int), *url, now),
        decreases lines.len() - i,
    {
        let line = text::string_of(&lines[i]);
        assert(line@ == all[i as int]);
        assert(all.take(i + 1).drop_last() =~= all.take(i as int));
        if let Some(cookie) = parse_netscape_cookie(line.as_str()) {
            if cookie_applies_to_url(&cookie, url, now) {
                let mut pair = text::chars_of(cookie.name.as_str());
                units::append_text(&mut pair, "=");
                units::append_text(&mut pair, cookie.value.as_str());
                let ghost before = text::char_texts(pairs@);
                pairs.push(pair);
                assert(text::char_texts(pairs@) =~= before.push(pair@));
            }
        }
        i = i + 1;
    }
    assert(all.take(i as int) =~= all);
    let separator = text::chars_of("; ");
    let joined = text::join_with(&pairs, &separator);
    text::string_of(&joined)
}

/// A point of the clock of the system.
#[verifier::external_type_specification]
#[verifier::external_body]
pub struct ExSystemTime(SystemTime);

/// What is returned where one point of the clock lies before another.
#[verifier::external_type_specification]
#[verifier::external_body]
pub struct ExSystemTimeError(SystemTimeError);

/// `SystemTime::now` reads the clock. Nothing is claimed of what it shows.
pub assume_specification[ SystemTime::now ]() -> SystemTime;

/// `Duration::as_secs` returns the whole seconds of a span. Nothing is claimed
/// of them, as nothing is known of the span.
pub assume_specification[ Duration::as_secs ](duration: &Duration) -> u64;

/// `SystemTime::duration_since` returns the time since the epoch, or an error
/// where the clock stands before it. Nothing is claimed of either.
#[verifier::external_body]
fn since_epoch(time: &SystemTime) -> Result<Duration, SystemTimeError> {
    time.duration_since(UNIX_EPOCH)
}

/// The message of a `SystemTimeError`. Nothing is claimed of it.
#[verifier::external_body]
fn clock_message(error: &SystemTimeError) -> String {
    error.to_string()
}

/// The seconds since the epoch. The clock decides, so nothing is claimed of them.
fn unix_now() -> (r: Result<u64, IaGetError>)
    ensures
        r is Err ==> r->Err_0 is FileSystem,
{
    let time = SystemTime::now();
    match since_epoch(&time) {
        Ok(span) => Ok(span.as_secs()),
        Err(e) => Err(IaGetError::FileSystem(clock_message(&e))),
    }
}

/// The header for the cookies of a file with a request to `url` now. What the
/// clock shows is left open: the result is the header for some second, or the
/// error of a clock that stands before the epoch.
pub fn cookie_header_from_netscape_file(content: &str, url: &RequestUrl) -> (r: Result<
    String,
    IaGetError,
>)
    ensures
        match r {
            Ok(header) => exists|now: u64|
                header@ == #[trigger] netscape_header(content@, *url, now),
            Err(e) => e is FileSystem,
        },
{
    match unix_now() {
        Ok(now) => Ok(cookie_header_from_netscape_file_at(content, url, now)),
        Err(e) => Err(e),
    }
}

/// The header for what was given as cookies: the cookies of the file where it
/// names one, else the text itself. `file` holds the content of that file.
pub open spec fn input_header(
    input: Seq<char>,
    file: Option<Seq<char>>,
    url: RequestUrl,
    now: u64,
) -> Seq<char> {
    match file {
        Some(content) => netscape_header(content, url, now),
        None => text::trimmed(input),
    }
}

/// The header for what was given as cookies, with a request to `url` at the second
/// `now`.
pub fn cookie_header_from_input_at(
    input: &str,
    file: Option<&str>,
    url: &RequestUrl,
    now: u64,
) -> (r: String)
    ensures
        r@ == input_header(input@, text::str_text(file), *url, now),
{
    match file {
        Some(content) => cookie_header_from_netscape_file_at(content, url, now),
        None => {
            let chars = text::chars_of(input);
            let trimmed = text::trim(&chars);
            text::string_of(&trimmed)
        },
    }
}

/// The header for what was given as cookies, with a request to `url` now.
/// `file` holds the content of the file that `input` names, where it names one;
/// only then the clock is read.
pub fn cookie_header_from_input(input: &str, file: Option<&str>, url: &RequestUrl) -> (r: Result<
    String,
    IaGetError,
>)
    ensures
        match r {
            Ok(header) => exists|now: u64|
                header@ == #[trigger] input_header(input@, text::str_text(file), *url, now),
            Err(e) => file is Some && e is FileSystem,
        },
{
    let mut now: u64 = 0;
    if file.is_some() {
        match unix_now() {
            Ok(seconds) => {
                now = seconds;
            },
            Err(e) => {
                return Err(e);
            },
        }
    }
    Ok(cookie_header_from_input_at(input, file, url, now))
}

/// The header that goes with a request: none where no cookies were given or none
/// of them goes with it.
pub open spec fn request_cookie(
    input: Option<Seq<char>>,
    file: Option<Seq<char>>,
    url: RequestUrl,
    now: u64,
) -> Option<Seq<char>> {
    match input {
        Some(input) => {
            let header = input_header(input, file, url, now);
            if header.len() == 0 {
                None
            } else {
                Some(header)
            }
        },
        None => None,
    }
}

/// The header that goes with a request to `url` at the second `now`, as a text.
pub fn download_cookie_header_at(
    input: Option<&str>,
    file: Option<&str>,
    url: &RequestUrl,
    now: u64,
) -> (r: Option<String>)
    ensures
        text::option_text(r) == request_cookie(
            text::str_text(input),
            text::str_text(file),
            *url,
            now,
        ),
{
    match input {
        Some(given) => {
            let header = cookie_header_from_input_at(given, file, url, now);
            let chars = text::chars_of(header.as_str());
            if chars.len() == 0 {
                None
            } else {
                Some(header)
            }
        },
        None => None,
    }
}

/// The header that goes with a request to `url` now, as a text.
pub fn download_cookie_header(
    input: Option<&str>,
    file: Option<&str>,
    url: &RequestUrl,
) -> (r: Result<Option<String>, IaGetError>)
    ensures
        match r {
            Ok(header) => exists|now: u64|
                text::option_text(header) == #[trigger] request_cookie(
                    text::str_text(input),
                    text::str_text(file),
                    *url,
                    now,
                ),
            Err(e) => input is Some && file is Some && e is FileSystem,
        },
{
    let mut now: u64 = 0;
    if input.is_some() && file.is_some() {
        match unix_now() {
            Ok(seconds) => {
                now = seconds;
            },
            Err(e) => {
                return Err(e);
            },
        }
    }
    Ok(download_cookie_header_at(input, file, url, now))
}

/// The header that goes with a request to the URL in `url` now, as a text. Each
/// request gets the cookies that are meant for its own URL.
pub fn cookie_header_for(input: Option<&str>, file: Option<&str>, url: &str) -> (r: Result<
    Option<String>,
    IaGetError,
>)
    ensures
        match r {
            Ok(header) => {
                &&& input is None ==> header is None
                &&& input is Some ==> exists|parsed: RequestUrl, now: u64|
                    {
                        &&& urls::parses_to(url@, parsed)
                        &&& text::option_text(header) == #[trigger] request_cookie(
                            text::str_text(input),
                            text::str_text(file),
                            parsed,
                            now,
                        )
                    }
            },
            Err(e) => {
                &&& input is Some
                &&& match urls::parsed_url(url@) {
                    Ok(parts) => file is Some && e is FileSystem,
                    Err(message) => e is UrlFormat && e.message() == message,
                }
            },
        },
{
    if input.is_none() {
        return Ok(None);
    }
    match urls::parse_request_url(url) {
        Ok(parsed) => {
            let r = download_cookie_header(input, file, &parsed);
            proof {
                if r is Ok {
                    let now = choose|now: u64|
                        text::option_text(r->Ok_0) == #[trigger] request_cookie(
                            text::str_text(input),
                            text::str_text(file),
                            parsed,
                            now,
                        );
                    assert(urls::parses_to(url@, parsed));
                    assert(text::option_text(r->Ok_0) == request_cookie(
                        text::str_text(input),
                        text::str_text(file),
                        parsed,
                        now,
                    ));
                }
            }
            r
        },
        Err(e) => Err(e),
    }
}

/// The header that goes with a request, checked and in bytes.
pub open spec fn header_bytes(header: Option<Seq<char>>, bytes: Option<Vec<u8>>) -> bool {
    match header {
        Some(value) => {
            &&& headers::header_text(value)
            &&& headers::option_bytes(bytes) == Some(vstd::utf8::encode_utf8(value))
        },
        None => bytes is None,
    }
}

/// Checks the header that goes with a request and turns it into bytes.
pub fn cookie_bytes(header: &Option<String>) -> (r: Result<Option<Vec<u8>>, IaGetError>)
    ensures
        match r {
            Ok(bytes) => header_bytes(text::option_text(*header), bytes),
            Err(e) => {
                &&& header is Some
                &&& !headers::header_text(header->0@)
                &&& e is Network
                &&& e.message() == "Invalid cookie header"@ + ": "@ + headers::invalid_header()
            },
        },
{
    match header {
        Some(value) => match headers::header_value(value.as_str(), "Invalid cookie header") {
            Ok(bytes) => Ok(Some(bytes)),
            Err(e) => Err(e),
        },
        None => Ok(None),
    }
}

/// The header that goes with a request to `url` now, checked and in bytes.
pub fn cookie_header_value(
    input: Option<&str>,
    file: Option<&str>,
    url: &RequestUrl,
) -> (r: Result<Option<Vec<u8>>, IaGetError>)
    ensures
        match r {
            Ok(bytes) => exists|now: u64|
                header_bytes(
                    #[trigger] request_cookie(
                        text::str_text(input),
                        text::str_text(file),
                        *url,
                        now,
                    ),
                    bytes,
                ),
            Err(e) => {
                ||| input is Some && file is Some && e is FileSystem
                ||| {
                    &&& e is Network
                    &&& e.message() == "Invalid cookie header"@ + ": "@ + headers::invalid_header()
                    &&& exists|now: u64|
                        {
                            let header = #[trigger] request_cookie(
                                text::str_text(input),
                                text::str_text(file),
                                *url,
                                now,
                            );
                            header is Some && !headers::header_text(header->0)
                        }
                }
            },
        },
{
    match download_cookie_header(input, file, url) {
        Ok(header) => {
            let ghost now = choose|now: u64|
                text::option_text(header) == #[trigger] request_cookie(
                    text::str_text(input),
                    text::str_text(file),
                    *url,
                    now,
                );
            let r = cookie_bytes(&header);
            assert(text::option_text(header) == request_cookie(
                text::str_text(input),
                text::str_text(file),
                *url,
                now,
            ));
            r
        },
        Err(e) => Err(e),
    }
}

// ---------------------------------------------------------------------------
// Laws
// ---------------------------------------------------------------------------

/// A cookie is never sent to a foreign host: its domain is the host, or it covers
/// the hosts below its domain and the host is one of them.
pub proof fn law_cookie_stays_in_its_domain(cookie: CookieData, url: RequestUrl, now: u64)
    requires
        applies(cookie, url, now),
    ensures
        url.host is Some,
        text::lower(url.host->0@) != cookie.domain ==> {
            &&& cookie.include_subdomains
            &&& exists|below: Seq<char>|
                text::lower(url.host->0@) == #[trigger] (below + "."@ + cookie.domain)
        },
{
    let host = text::lower(url.host->0@);
    if host != cookie.domain {
        let suffix = "."@ + cookie.domain;
        let below = host.take(host.len() - suffix.len());
        assert(host =~= below + "."@ + cookie.domain) by {
            assert(host.skip(host.len() - suffix.len()) == suffix);
            assert(host =~= below + host.skip(host.len() - suffix.len()));
            assert(below + suffix =~= below + "."@ + cookie.domain);
        }
    }
}

/// A cookie is only sent to paths that its own path covers as whole segments.
pub proof fn law_cookie_stays_in_its_path(cookie: CookieData, url: RequestUrl, now: u64)
    requires
        applies(cookie, url, now),
    ensures
        text::has_prefix(url.path@, scope(cookie.path)),
        url.path@.len() > scope(cookie.path).len() ==> scope(cookie.path).last() == '/'
            || url.path@[scope(cookie.path).len() as int] == '/',
{
    let scope = scope(cookie.path);
    if url.path@ == scope {
        assert(url.path@.take(scope.len() as int) =~= scope);
    }
}

/// A cookie that has expired is not sent, and one marked secure is only sent
/// over HTTPS.
pub proof fn law_expired_and_insecure_cookies_stay(cookie: CookieData, url: RequestUrl, now: u64)
    ensures
        cookie.expires is Some && cookie.expires->0 <= now ==> !applies(cookie, url, now),
        cookie.secure && url.scheme@ != "https"@ ==> !applies(cookie, url, now),
{
}

/// A cookie that goes with a request now went with it at every earlier time.
pub proof fn law_cookies_only_expire(cookie: CookieData, url: RequestUrl, earlier: u64, now: u64)
    requires
        earlier <= now,
        applies(cookie, url, now),
    ensures
        applies(cookie, url, earlier),
{
}

/// What stands in the header is exactly the cookies of the file that go with the
/// request: a line contributes its pair if and only if its cookie applies.
pub proof fn law_header_holds_what_applies(
    lines: Seq<Seq<char>>,
    url: RequestUrl,
    now: u64,
    pair: Seq<char>,
)
    ensures
        cookie_pairs(lines, url, now).contains(pair) <==> exists|i: int|
            0 <= i < lines.len() && line_applies(#[trigger] lines[i], url, now) && pair
                == cookie_pair(netscape_cookie(lines[i])->0),
    decreases lines.len(),
{
    let found = cookie_pairs(lines, url, now);
    if lines.len() > 0 {
        let head = lines.drop_last();
        let before = cookie_pairs(head, url, now);
        law_header_holds_what_applies(head, url, now, pair);
        if before.contains(pair) {
            let i = choose|i: int|
                0 <= i < head.len() && line_applies(#[trigger] head[i], url, now) && pair
                    == cookie_pair(netscape_cookie(head[i])->0);
            assert(lines[i] == head[i]);
            let j = choose|j: int| 0 <= j < before.len() && before[j] == pair;
            assert(found[j] == pair);
        } else if found.contains(pair) {
            let j = choose|j: int| 0 <= j < found.len() && found[j] == pair;
            if j < before.len() {
                assert(before[j] == pair);
            }
            assert(line_applies(lines[lines.len() - 1], url, now));
        } else if exists|i: int|
            0 <= i < lines.len() && line_applies(#[trigger] lines[i], url, now) && pair
                == cookie_pair(netscape_cookie(lines[i])->0) {
            let i = choose|i: int|
                0 <= i < lines.len() && line_applies(#[trigger] lines[i], url, now) && pair
                    == cookie_pair(netscape_cookie(lines[i])->0);
            if i < head.len() {
                assert(head[i] == lines[i]);
            } else {
                assert(found[before.len() as int] == pair);
            }
        }
    }
}

/// The mark of cookies that scripts may not read changes nothing in the cookie
/// of a line that starts with its domain.
pub proof fn law_http_only_mark_is_ignored(line: Seq<char>)
    requires
        line.len() > 0 ==> !text::white_space(line[0]),
        !text::has_prefix(line, http_only()),
    ensures
        netscape_cookie(http_only() + line) == netscape_cookie(line),
{
    reveal_strlit("#HttpOnly_");
    let space = |c: char| text::white_space(c);
    let marked = http_only() + line;
    let kept = text::trim_end_while(line, space);
    lemma_trim_end_append(http_only(), line, space);
    text::lemma_trim_end_shape(line, space);
    assert(marked[0] == '#');
    assert(text::trimmed(marked) == http_only() + kept);
    assert(text::trimmed(line) == kept);
    assert((http_only() + kept).take(10) =~= http_only());
    assert((http_only() + kept).skip(10) =~= kept);
    if text::has_prefix(kept, http_only()) {
        assert(line.take(10) =~= kept.take(10));
    }
}

/// Trimming at the end goes no further than a character that is kept.
proof fn lemma_trim_end_append(a: Seq<char>, b: Seq<char>, p: spec_fn(char) -> bool)
    requires
        a.len() > 0,
        !p(a.last()),
    ensures
        text::trim_end_while(a + b, p) == a + text::trim_end_while(b, p),
    decreases b.len(),
{
    if b.len() == 0 {
        assert(a + b =~= a);
    } else if p(b.last()) {
        assert((a + b).drop_last() =~= a + b.drop_last());
        assert((a + b).last() == b.last());
        lemma_trim_end_append(a, b.drop_last(), p);
    } else {
        assert((a + b).last() == b.last());
    }
}

/// A comment holds no cookie.
pub proof fn law_comment_holds_no_cookie(line: Seq<char>)
    requires
        cookie_text(line).len() > 0,
        cookie_text(line)[0] == '#',
    ensures
        netscape_cookie(line) is None,
{
}

/// A line of the cookie file, with its seven fields between tabs.
pub open spec fn cookie_line(
    domain: Seq<char>,
    subdomains: Seq<char>,
    path: Seq<char>,
    secure: Seq<char>,
    expires: Seq<char>,
    name: Seq<char>,
    value: Seq<char>,
) -> Seq<char> {
    domain + seq!['\t'] + subdomains + seq!['\t'] + path + seq!['\t'] + secure + seq!['\t']
        + expires + seq!['\t'] + name + seq!['\t'] + value
}

/// What is written into a line is read back: path, name and value character for
/// character, the domain in lower case, the two flags from the word for true in any
/// case, and the second at which the cookie expires, where 0 stands for none.
pub proof fn law_lines_read_back(
    domain: Seq<char>,
    subdomains: Seq<char>,
    path: Seq<char>,
    secure: Seq<char>,
    expires: nat,
    name: Seq<char>,
    value: Seq<char>,
)
    requires
        domain.len() > 0,
        value.len() > 0,
        !text::white_space(domain[0]),
        !text::white_space(value.last()),
        domain[0] != '#',
        domain[0] != '.',
        expires <= u64::MAX,
        !domain.contains('\t'),
        !subdomains.contains('\t'),
        !path.contains('\t'),
        !secure.contains('\t'),
        !name.contains('\t'),
        !value.contains('\t'),
    ensures
        netscape_cookie(
            cookie_line(
                domain,
                subdomains,
                path,
                secure,
                numbers::decimal(expires),
                name,
                value,
            ),
        ) == Some(
            CookieData {
                domain: text::lower(domain),
                include_subdomains: text::lower(subdomains) == "true"@,
                path,
                secure: text::lower(secure) == "true"@,
                expires: if expires == 0 {
                    None
                } else {
                    Some(expires as u64)
                },
                name,
                value,
            },
        ),
{
    let e = numbers::decimal(expires);
    let line = cookie_line(domain, subdomains, path, secure, e, name, value);
    numbers::law_decimal_reads_back(expires, u64::MAX as nat);
    numbers::lemma_decimal_digits(expires);
    assert(!e.contains('\t')) by {
        if e.contains('\t') {
            let j = choose|j: int| 0 <= j < e.len() && e[j] == '\t';
            assert(numbers::is_digit(e[j]));
        }
    }
    let t = seq!['\t'];
    let l1 = domain + t + subdomains;
    let l2 = l1 + t + path;
    let l3 = l2 + t + secure;
    let l4 = l3 + t + e;
    let l5 = l4 + t + name;
    text::lemma_split_plain(domain, '\t');
    text::lemma_split_append(domain, subdomains, '\t');
    text::lemma_split_append(l1, path, '\t');
    text::lemma_split_append(l2, secure, '\t');
    text::lemma_split_append(l3, e, '\t');
    text::lemma_split_append(l4, name, '\t');
    text::lemma_split_append(l5, value, '\t');
    assert(line == l5 + t + value);
    let fields = text::split(line, '\t');
    assert(fields =~= seq![domain, subdomains, path, secure, e, name, value]);
    assert(line[0] == domain[0]);
    assert(line.last() == value.last());
    assert(text::trim_start_while(line, |c: char| text::white_space(c)) == line);
    assert(text::trimmed(line) == line);
    reveal_strlit("#HttpOnly_");
    if text::has_prefix(line, http_only()) {
        assert(line.take(10)[0] == '#');
    }
    assert(text::trim_start_char(domain, '.') == domain);
}

/// A dot in front of the domain, which older files hold, makes no difference.
pub proof fn law_leading_dot_is_ignored(line: Seq<char>)
    requires
        line.len() > 0,
        line[0] != '#',
        !text::white_space(line[0]),
        netscape_cookie(line) is Some,
    ensures
        netscape_cookie(seq!['.'] + line) == netscape_cookie(line),
{
    let dotted = seq!['.'] + line;
    let space = |c: char| text::white_space(c);
    reveal_strlit("#HttpOnly_");
    lemma_trim_end_append(seq!['.'], line, space);
    let kept = text::trim_end_while(line, space);
    text::lemma_trim_end_shape(line, space);
    assert(text::trimmed(line) == kept);
    assert(dotted[0] == '.');
    assert(text::trimmed(dotted) == seq!['.'] + kept);
    if text::has_prefix(kept, http_only()) {
        assert(kept.take(10)[0] == '#');
        assert(kept[0] == line[0]);
    }
    if text::has_prefix(seq!['.'] + kept, http_only()) {
        assert((seq!['.'] + kept).take(10)[0] == '#');
    }
    lemma_split_front(kept, '.', '\t');
    let fields = text::split(kept, '\t');
    let more = text::split(seq!['.'] + kept, '\t');
    assert(more.len() == fields.len());
    assert(forall|i: int| 1 <= i < fields.len() ==> more[i] == fields[i]);
    assert(more[0] == seq!['.'] + fields[0]);
    assert((seq!['.'] + fields[0]).drop_first() =~= fields[0]);
}

/// A character in front belongs to the first piece.
proof fn lemma_split_front(s: Seq<char>, c: char, sep: char)
    requires
        c != sep,
    ensures
        text::split(seq![c] + s, sep) == text::split(s, sep).update(
            0,
            seq![c] + text::split(s, sep)[0],
        ),
    decreases s.len(),
{
    let all = seq![c] + s;
    text::lemma_split_nonempty(s, sep);
    if s.len() == 0 {
        assert(all.drop_last() =~= Seq::<char>::empty());
        assert(all.last() == c);
        assert(text::split(all.drop_last(), sep) =~= seq![Seq::<char>::empty()]);
        assert(seq![c] + Seq::<char>::empty() =~= Seq::<char>::empty().push(c));
        assert(text::split(all, sep) =~= text::split(s, sep).update(
            0,
            seq![c] + text::split(s, sep)[0],
        ));
    } else {
        let head = s.drop_last();
        lemma_split_front(head, c, sep);
        text::lemma_split_nonempty(head, sep);
        assert(all.drop_last() =~= seq![c] + head);
        assert(all.last() == s.last());
        let before = text::split(head, sep);
        if s.last() != sep && before.len() == 1 {
            assert(seq![c] + before[0].push(s.last()) =~= (seq![c] + before[0]).push(s.last()));
        }
        assert(text::split(all, sep) =~= text::split(s, sep).update(
            0,
            seq![c] + text::split(s, sep)[0],
        ));
    }
}

/// A cookie is sent exactly where all of this holds: it has not expired; it is not
/// marked secure or the request goes over HTTPS; the host is its domain, or ends in
/// a dot and its domain and it covers the hosts below it; and the path of the
/// request is its own, or begins with it at the end of a segment. A cookie without
/// a path counts for the root.
pub proof fn law_cookies_are_sent_where_they_belong(
    cookie: CookieData,
    url: RequestUrl,
    now: u64,
)
    ensures
        applies(cookie, url, now) <==> {
            let path = if cookie.path.len() == 0 {
                seq!['/']
            } else {
                cookie.path
            };
            &&& cookie.expires is None || now < cookie.expires->0
            &&& !cookie.secure || url.scheme@ == "https"@
            &&& url.host is Some
            &&& {
                let host = text::lower(url.host->0@);
                ||| host == cookie.domain
                ||| cookie.include_subdomains && host.len() > cookie.domain.len() && host.skip(
                    host.len() - cookie.domain.len() - 1,
                ) == seq!['.'] + cookie.domain
            }
            &&& {
                ||| url.path@ == path
                ||| {
                    &&& url.path@.len() > path.len()
                    &&& url.path@.take(path.len() as int) == path
                    &&& path.last() == '/' || url.path@[path.len() as int] == '/'
                }
            }
        },
{
    reveal_strlit(".");
    reveal_strlit("/");
    assert("."@ =~= seq!['.']);
    assert("/"@ =~= seq!['/']);
    let path = scope(cookie.path);
    if text::has_prefix(url.path@, path) && url.path@.len() == path.len() {
        assert(url.path@.take(path.len() as int) =~= url.path@);
    }
}

/// The cookies of lines behind others come behind those of the others.
proof fn lemma_pairs_concat(
    a: Seq<Seq<char>>,
    b: Seq<Seq<char>>,
    url: RequestUrl,
    now: u64,
)
    ensures
        cookie_pairs(a + b, url, now) == cookie_pairs(a, url, now) + cookie_pairs(b, url, now),
    decreases b.len(),
{
    if b.len() == 0 {
        assert(a + b =~= a);
        assert(cookie_pairs(a, url, now) + cookie_pairs(b, url, now) =~= cookie_pairs(a, url, now));
    } else {
        lemma_pairs_concat(a, b.drop_last(), url, now);
        assert((a + b).drop_last() =~= a + b.drop_last());
        assert((a + b).last() == b.last());
        assert(cookie_pairs(a + b, url, now) =~= cookie_pairs(a, url, now) + cookie_pairs(
            b,
            url,
            now,
        ));
    }
}

/// A pair is never empty, so the header is empty only where no cookie is sent.
proof fn lemma_header_empty(lines: Seq<Seq<char>>, url: RequestUrl, now: u64)
    ensures
        text::join(cookie_pairs(lines, url, now), "; "@).len() == 0 <==> cookie_pairs(
            lines,
            url,
            now,
        ).len() == 0,
    decreases lines.len(),
{
    reveal_strlit("=");
    reveal_strlit("; ");
    let pairs = cookie_pairs(lines, url, now);
    if lines.len() > 0 {
        lemma_header_empty(lines.drop_last(), url, now);
        if line_applies(lines.last(), url, now) {
            let before = cookie_pairs(lines.drop_last(), url, now);
            assert(pairs.drop_last() =~= before);
            assert(pairs.last().len() > 0);
            if before.len() == 0 {
                assert(text::join(pairs, "; "@) == pairs[0]);
            }
        }
    }
}

/// That the last line of a file is ended does not matter to its cookies.
proof fn lemma_ended_pairs(content: Seq<char>, url: RequestUrl, now: u64)
    ensures
        cookie_pairs(text::ended_lines(content), url, now) == cookie_pairs(
            text::lines(content),
            url,
            now,
        ),
{
    text::lemma_split_nonempty(content, '\n');
    let pieces = text::split(content, '\n');
    let ended = text::ended_lines(content);
    let lines = text::lines(content);
    let last = pieces.last();
    assert(ended.last() == text::without_cr(last));
    if last.len() == 0 {
        assert(ended.drop_last() =~= lines);
        assert(text::trimmed(last) == last);
        reveal_strlit("#HttpOnly_");
        assert(netscape_cookie(last) is None);
    } else {
        assert(ended.drop_last() =~= lines.drop_last());
        assert(lines.last() == last);
        if last.last() == '\r' {
            assert(last =~= last.drop_last().push('\r'));
            text::lemma_trimmed_push(last.drop_last(), '\r');
        }
    }
}

/// A file that holds one content and, behind a line feed, another gives the cookies
/// of both: those of the first, then those of the second.
pub proof fn law_headers_of_contents_are_joined(
    a: Seq<char>,
    b: Seq<char>,
    url: RequestUrl,
    now: u64,
)
    ensures
        ({
            let first = netscape_header(a, url, now);
            let second = netscape_header(b, url, now);
            netscape_header(a + seq!['\n'] + b, url, now) == if first.len() == 0 {
                second
            } else if second.len() == 0 {
                first
            } else {
                first + seq![';', ' '] + second
            }
        }),
{
    reveal_strlit("; ");
    assert("; "@ =~= seq![';', ' ']);
    text::lemma_lines_concat(a, b);
    lemma_pairs_concat(text::ended_lines(a), text::lines(b), url, now);
    lemma_ended_pairs(a, url, now);
    lemma_header_empty(text::lines(a), url, now);
    lemma_header_empty(text::lines(b), url, now);
    let x = cookie_pairs(text::lines(a), url, now);
    let y = cookie_pairs(text::lines(b), url, now);
    if x.len() == 0 {
        assert(x + y =~= y);
        assert(text::join(x, "; "@) =~= Seq::empty());
    } else if y.len() == 0 {
        assert(x + y =~= x);
    } else {
        text::lemma_join_concat(x, y, "; "@);
    }
}

/// The header of one line is its name and value as they stand in the file, where
/// its cookie is sent, and else nothing.
pub proof fn law_header_of_one_line(line: Seq<char>, url: RequestUrl, now: u64)
    requires
        !line.contains('\n'),
    ensures
        netscape_header(line, url, now) == match netscape_cookie(line) {
            Some(cookie) => if applies(cookie, url, now) {
                cookie.name + seq!['='] + cookie.value
            } else {
                Seq::empty()
            },
            None => Seq::empty(),
        },
{
    reveal_strlit("=");
    assert("="@ =~= seq!['=']);
    text::lemma_split_plain(line, '\n');
    let none = Seq::<Seq<char>>::empty();
    assert(cookie_pairs(none, url, now) =~= none);
    if line.len() == 0 {
        assert(text::lines(line) =~= none);
        assert(text::trimmed(line) == line);
        reveal_strlit("#HttpOnly_");
        assert(netscape_cookie(line) is None);
    } else {
        let lines = text::lines(line);
        assert(lines =~= seq![line]);
        assert(lines.drop_last() =~= none);
        assert(lines.last() == line);
        if line_applies(line, url, now) {
            let pair = cookie_pair(netscape_cookie(line)->0);
            assert(cookie_pairs(lines, url, now) =~= seq![pair]);
        }
    }
}

/// Cookies that are given as a text are sent as they are, whatever the request.
pub proof fn law_raw_cookies_are_sent_as_they_are(input: Seq<char>, url: RequestUrl, now: u64)
    requires
        input.len() > 0,
        !text::white_space(input[0]),
        !text::white_space(input.last()),
    ensures
        request_cookie(Some(input), None, url, now) == Some(input),
        forall|file: Option<Seq<char>>| request_cookie(None, file, url, now) is None,
{
    assert(text::trim_start_while(input, |c: char| text::white_space(c)) == input);
    assert(text::trimmed(input) == input);
}

/// White space around cookies that are given as a text is not sent.
pub proof fn law_white_space_around_raw_cookies_is_dropped(
    before: Seq<char>,
    input: Seq<char>,
    behind: Seq<char>,
    url: RequestUrl,
    now: u64,
)
    requires
        forall|i: int| 0 <= i < before.len() ==> text::white_space(#[trigger] before[i]),
        forall|i: int| 0 <= i < behind.len() ==> text::white_space(#[trigger] behind[i]),
        input.len() > 0,
        !text::white_space(input[0]),
        !text::white_space(input.last()),
    ensures
        request_cookie(Some(before + input + behind), None, url, now) == Some(input),
{
    text::law_white_space_around_is_trimmed(before, input, behind);
}

/// Fields behind the seventh are ignored.
pub proof fn law_further_fields_are_ignored(line: Seq<char>, more: Seq<char>)
    requires
        line.len() > 0,
        more.len() > 0,
        line[0] != '#',
        !text::white_space(line[0]),
        !text::white_space(line.last()),
        !text::white_space(more.last()),
        text::split(line, '\t').len() >= 7,
    ensures
        netscape_cookie(line + seq!['\t'] + more) is Some,
        netscape_cookie(line + seq!['\t'] + more) == netscape_cookie(line),
{
    let longer = line + seq!['\t'] + more;
    text::lemma_split_concat(line, more, '\t');
    text::lemma_split_nonempty(more, '\t');
    assert(longer[0] == line[0]);
    assert(longer.last() == more.last());
    assert(text::trim_start_while(line, |c: char| text::white_space(c)) == line);
    assert(text::trim_start_while(longer, |c: char| text::white_space(c)) == longer);
    assert(text::trimmed(line) == line);
    assert(text::trimmed(longer) == longer);
    reveal_strlit("#HttpOnly_");
    if text::has_prefix(line, http_only()) {
        assert(line.take(10)[0] == '#');
    }
    if text::has_prefix(longer, http_only()) {
        assert(longer.take(10)[0] == '#');
    }
}

/// Cookies from a file are those of its content, and no header is sent where none
/// of them goes with the request.
pub proof fn law_file_cookies_are_those_of_its_content(
    input: Seq<char>,
    content: Seq<char>,
    url: RequestUrl,
    now: u64,
)
    ensures
        request_cookie(Some(input), Some(content), url, now) == if netscape_header(
            content,
            url,
            now,
        ).len() == 0 {
            None
        } else {
            Some(netscape_header(content, url, now))
        },
{
}

/// What is sent as bytes is the header that goes with the request, and nothing is
/// sent without one.
pub proof fn law_bytes_are_those_of_the_header(header: Option<Seq<char>>, bytes: Option<Vec<u8>>)
    requires
        header_bytes(header, bytes),
    ensures
        bytes is Some <==> header is Some,
        header is Some ==> bytes->0@ == vstd::utf8::encode_utf8(header->0),
{
}

} // verus!
