//! What HTTP accepts as a method, a header name and a header value.

use vstd::prelude::*;
use vstd::utf8::encode_utf8;

verus! {

/// Whether a byte may stand in an HTTP token.
pub open spec fn token_byte(b: u8) -> bool {
    ||| 0x30 <= b <= 0x39
    ||| 0x41 <= b <= 0x5a
    ||| 0x61 <= b <= 0x7a
    ||| b == 0x21
    ||| 0x23 <= b <= 0x27
    ||| b == 0x2a
    ||| b == 0x2b
    ||| b == 0x2d
    ||| b == 0x2e
    ||| 0x5e <= b <= 0x60
    ||| b == 0x7c
    ||| b == 0x7e
}

/// Whether the bytes are an HTTP token.
pub open spec fn token(bytes: Seq<u8>) -> bool {
    bytes.len() > 0 && forall|i: int| 0 <= i < bytes.len() ==> token_byte(#[trigger] bytes[i])
}

/// Whether the bytes are a header value: no control byte but the tab.
pub open spec fn value_bytes(bytes: Seq<u8>) -> bool {
    forall|i: int|
        0 <= i < bytes.len() ==> (#[trigger] bytes[i] >= 32 && bytes[i] != 127) || bytes[i] == 9
}

/// `reqwest::Method::from_bytes` accepts exactly the tokens.
#[verifier::external_body]
pub(crate) fn method_accepted(method: &str) -> (accepted: bool)
    ensures
        accepted == token(encode_utf8(method@)),
{
    reqwest::Method::from_bytes(method.as_bytes()).is_ok()
}

/// `reqwest::header::HeaderName::from_bytes` accepts exactly the tokens of at
/// most 65535 bytes.
#[verifier::external_body]
pub(crate) fn header_name_accepted(name: &str) -> (accepted: bool)
    ensures
        accepted == (token(encode_utf8(name@)) && encode_utf8(name@).len() <= 65535),
{
    reqwest::header::HeaderName::from_bytes(name.as_bytes()).is_ok()
}

/// `reqwest::header::HeaderValue::from_str` accepts exactly the texts without
/// control bytes other than the tab.
#[verifier::external_body]
pub(crate) fn header_value_accepted(value: &str) -> (accepted: bool)
    ensures
        accepted == value_bytes(encode_utf8(value@)),
{
    reqwest::header::HeaderValue::from_str(value).is_ok()
}

/// The scheme that `url::Url::parse` finds in a URL; nothing where the text is
/// no URL.
pub uninterp spec fn scheme_of(url: Seq<char>) -> Option<Seq<char>>;

/// `url::Url::parse` and the `scheme` of what it parsed: the result depends on
/// the text alone and is named `scheme_of`.
#[verifier::external_body]
pub(crate) fn url_scheme(url: &str) -> (scheme: Option<String>)
    ensures
        match scheme {
            Some(text) => scheme_of(url@) == Some(text@),
            None => scheme_of(url@) is None,
        },
{
    url::Url::parse(url).ok().map(|parsed| parsed.scheme().to_owned())
}

/// What `url::Url::parse` makes of a URL once `set_query` took its query away,
/// as a text; nothing where the text is no URL.
pub uninterp spec fn queryless(url: Seq<char>) -> Option<Seq<char>>;

/// `url::Url::set_query` without a query, on what `url::Url::parse` parsed: the
/// result depends on the text alone and is named `queryless`. There is none
/// exactly where there is no scheme: both parse the text.
#[verifier::external_body]
pub(crate) fn url_without_query(url: &str) -> (bare: Option<String>)
    ensures
        match bare {
            Some(text) => queryless(url@) == Some(text@) && scheme_of(url@) is Some,
            None => queryless(url@) is None && scheme_of(url@) is None,
        },
{
    let mut parsed = url::Url::parse(url).ok()?;
    parsed.set_query(None);
    Some(parsed.to_string())
}

} // verus!
