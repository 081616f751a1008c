//! Values of HTTP headers.

use reqwest::header::HeaderValue;

use vstd::prelude::*;

use crate::error::IaGetError;
use crate::numbers;
use crate::text;
use crate::units;

verus! {

/// Whether a character may stand in the value of a header: everything but
/// control characters, of which only the tab may.
pub open spec fn header_char(c: char) -> bool {
    c == '\t' || (c as u32 >= 32 && c as u32 != 127)
}

/// Whether `s` can be the value of a header.
pub open spec fn header_text(s: Seq<char>) -> bool {
    forall|i: int| 0 <= i < s.len() ==> header_char(#[trigger] s[i])
}

/// What is said of a text that cannot be the value of a header.
pub open spec fn invalid_header() -> Seq<char> {
    "failed to parse header value"@
}

/// `HeaderValue::from_str` takes a text whose UTF-8 bytes are tabs or neither
/// below 32 nor 127, and `HeaderValue::as_bytes` returns those bytes. Of any
/// other text it says that it failed to parse it.
#[verifier::external_body]
fn encode_value(value: &str) -> (r: Result<Vec<u8>, String>)
    ensures
        match r {
            Ok(bytes) => header_text(value@) && bytes@ == vstd::utf8::encode_utf8(value@),
            Err(message) => !header_text(value@) && message@ == invalid_header(),
        },
{
    match HeaderValue::from_str(value) {
        Ok(header) => Ok(header.as_bytes().to_vec()),
        Err(e) => Err(e.to_string()),
    }
}

/// The bytes of a header with the given value; `what` begins the message about
/// a value that cannot be one.
pub fn header_value(value: &str, what: &str) -> (r: Result<Vec<u8>, IaGetError>)
    ensures
        match r {
            Ok(bytes) => header_text(value@) && bytes@ == vstd::utf8::encode_utf8(value@),
            Err(e) => {
                &&& !header_text(value@)
                &&& e is Network
                &&& e.message() == what@ + ": "@ + invalid_header()
            },
        },
{
    match encode_value(value) {
        Ok(bytes) => Ok(bytes),
        Err(message) => {
            let mut out = text::chars_of(what);
            units::append_text(&mut out, ": ");
            units::append_text(&mut out, message.as_str());
            Err(IaGetError::Network(text::string_of(&out)))
        },
    }
}

/// The value of the header that asks for everything from byte `from` on.
pub open spec fn range_text(from: nat) -> Seq<char> {
    "bytes="@ + numbers::decimal(from) + "-"@
}

/// The headers of a request for a file.
#[derive(Debug, Clone, PartialEq, Eq)]
pub struct RequestHeaders {
    /// The value of `Cookie`.
    pub cookie: Option<Vec<u8>>,
    /// The value of `Range`.
    pub range: Option<Vec<u8>>,
}

/// The bytes of an optional value of a header.
pub open spec fn option_bytes(value: Option<Vec<u8>>) -> Option<Seq<u8>> {
    match value {
        Some(bytes) => Some(bytes@),
        None => None,
    }
}

/// Every decimal digit may stand in a header.
proof fn lemma_decimal_is_header_text(n: nat)
    ensures
        header_text(numbers::decimal(n)),
    decreases n,
{
    if n >= 10 {
        lemma_decimal_is_header_text(n / 10);
    }
}

/// The headers with which a file is requested of which the first `current_size`
/// bytes are already there: the cookies, and the range that is missing.
pub fn download_headers(cookie_header: Option<&str>, current_size: u64) -> (r: Result<
    RequestHeaders,
    IaGetError,
>)
    ensures
        match r {
            Ok(headers) => {
                &&& match cookie_header {
                    Some(cookie) => {
                        &&& header_text(cookie@)
                        &&& option_bytes(headers.cookie) == Some(
                            vstd::utf8::encode_utf8(cookie@),
                        )
                    },
                    None => headers.cookie is None,
                }
                &&& if current_size > 0 {
                    option_bytes(headers.range) == Some(
                        vstd::utf8::encode_utf8(range_text(current_size as nat)),
                    )
                } else {
                    headers.range is None
                }
            },
            Err(e) => {
                &&& cookie_header is Some
                &&& !header_text(cookie_header->0@)
                &&& e is Network
                &&& e.message() == "Invalid cookie header value"@ + ": "@ + invalid_header()
            },
        },
{
    let mut cookie: Option<Vec<u8>> = None;
    match cookie_header {
        Some(value) => match header_value(value, "Invalid cookie header value") {
            Ok(bytes) => {
                cookie = Some(bytes);
            },
            Err(e) => {
                return Err(e);
            },
        },
        None => {},
    }
    let mut range: Option<Vec<u8>> = None;
    if current_size > 0 {
        let mut value: Vec<char> = Vec::new();
        units::append_text(&mut value, "bytes=");
        units::append_number(&mut value, current_size);
        units::append_text(&mut value, "-");
        let value = text::string_of(&value);
        proof {
            law_range_is_valid(current_size as nat);
            assert(value@ =~= range_text(current_size as nat));
        }
        match header_value(value.as_str(), "Invalid range header value") {
            Ok(bytes) => {
                range = Some(bytes);
            },
            Err(e) => {
                return Err(e);
            },
        }
    }
    Ok(RequestHeaders { cookie, range })
}

/// A request for a file can only fail over its cookies: what asks for the
/// missing range is always a valid header.
pub proof fn law_range_is_valid(from: nat)
    ensures
        header_text(range_text(from)),
{
    reveal_strlit("bytes=");
    reveal_strlit("-");
    lemma_decimal_is_header_text(from);
}

/// The value of a header may hold everything but control characters, and of these the
/// tab.
pub proof fn law_headers_hold_no_control_characters(s: Seq<char>)
    ensures
        header_text(s) <==> forall|i: int|
            0 <= i < s.len() ==> (#[trigger] s[i]) == '\t' || (s[i] >= ' ' && s[i] != '\x7f'),
{
    assert forall|i: int| 0 <= i < s.len() implies (header_char(#[trigger] s[i]) <==> s[i] == '\t'
        || (s[i] >= ' ' && s[i] != '\x7f')) by {
        lemma_header_char(s[i]);
    }
    if header_text(s) {
        assert forall|i: int| 0 <= i < s.len() implies (#[trigger] s[i]) == '\t' || (s[i] >= ' '
            && s[i] != '\x7f') by {
            assert(header_char(s[i]));
        }
    }
}

/// The characters of a header are the tab and those from the space on but for DEL.
proof fn lemma_header_char(c: char)
    ensures
        header_char(c) <==> c == '\t' || (c >= ' ' && c != '\x7f'),
{
}

} // verus!
