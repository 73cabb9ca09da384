//! The calls into other crates and into the parts of the standard library that carry no
//! contract of their own. Every function here is trusted: its contract states what the
//! called function does, and nothing in this file is proved.

use crate::text::ascii_lower;
use vstd::prelude::*;
use vstd::utf8::{decode_utf8, encode_utf8, is_ascii_chars, valid_utf8};

verus! {

/// A point on the standard library's monotonic clock.
#[verifier::external_type_specification]
#[verifier::external_body]
pub struct ExInstant(std::time::Instant);

/// An HTTP client.
#[verifier::external_type_specification]
#[verifier::external_body]
pub struct ExClient(reqwest::Client);

/// What padded, standard-alphabet base64 decodes to; nothing where it is malformed.
pub uninterp spec fn base64_standard(text: Seq<char>) -> Option<Seq<u8>>;

/// What unpadded, URL-safe base64 decodes to; nothing where it is malformed.
pub uninterp spec fn base64_url_no_pad(text: Seq<char>) -> Option<Seq<u8>>;

/// What the bytes hold when read as one JSON document: nothing where they are no JSON,
/// `Some(None)` where the document is no object, and otherwise the members of the object, each
/// with its text where its value is a string.
pub uninterp spec fn json_document(bytes: Seq<u8>) -> Option<
    Option<Seq<(Seq<char>, Option<Seq<char>>)>>,
>;

/// The SHA-256 digest of the bytes.
pub uninterp spec fn sha256(bytes: Seq<u8>) -> Seq<u8>;

/// The scheme and host of an absolute URL, or the parser's message where the text is none.
pub uninterp spec fn url_parsed(text: Seq<char>) -> Result<
    (Seq<char>, Option<Seq<char>>),
    Seq<char>,
>;

/// The text with every character in lower case, by Unicode's rules.
pub uninterp spec fn unicode_lower(text: Seq<char>) -> Seq<char>;

/// The text in double quotes, escaped as a Rust string literal.
pub uninterp spec fn quoted(text: Seq<char>) -> Seq<char>;

/// The hexadecimal digit of value `n`, in lower case.
pub open spec fn hex_lower(n: int) -> char {
    if n < 10 {
        (48 + n) as char
    } else {
        (87 + n) as char
    }
}

/// The hexadecimal digit of value `n`, in upper case.
pub open spec fn hex_upper(n: int) -> char {
    if n < 10 {
        (48 + n) as char
    } else {
        (55 + n) as char
    }
}

/// Two lower-case hexadecimal digits per byte, in order, the high half first.
pub open spec fn hex_text(bytes: Seq<u8>) -> Seq<char> {
    Seq::new(
        2 * bytes.len(),
        |i: int|
            if i % 2 == 0 {
                hex_lower(bytes[i / 2] as int / 16)
            } else {
                hex_lower(bytes[i / 2] as int % 16)
            },
    )
}

/// Whether a byte stands for itself in a percent-encoded text.
pub open spec fn is_unreserved(b: u8) -> bool {
    ||| 48 <= b <= 57
    ||| 65 <= b <= 90
    ||| 97 <= b <= 122
    ||| b == 45
    ||| b == 46
    ||| b == 95
    ||| b == 126
}

/// The bytes with all but letters, digits and `-`, `.`, `_`, `~` written as `%` and two
/// upper-case hexadecimal digits.
pub open spec fn percent_encoded(bytes: Seq<u8>) -> Seq<char>
    decreases bytes.len(),
{
    if bytes.len() == 0 {
        Seq::empty()
    } else if is_unreserved(bytes[0]) {
        seq![bytes[0] as char] + percent_encoded(bytes.skip(1))
    } else {
        seq!['%', hex_upper(bytes[0] as int / 16), hex_upper(bytes[0] as int % 16)]
            + percent_encoded(bytes.skip(1))
    }
}

/// Whether a byte may stand in a header value.
pub open spec fn is_header_value_byte(b: u8) -> bool {
    (b >= 32 && b != 127) || b == 9
}

/// Whether the text can be sent as the value of an HTTP header.
pub open spec fn is_header_value(text: Seq<char>) -> bool {
    forall|i: int| 0 <= i < encode_utf8(text).len() ==> is_header_value_byte(encode_utf8(text)[i])
}

/// Whether a byte is a visible ASCII character, a space or a tab.
pub open spec fn is_visible_byte(b: u8) -> bool {
    (b >= 32 && b < 127) || b == 9
}

/// The characters of an HTTP token.
pub open spec fn is_token_char(c: char) -> bool {
    ||| 'a' <= c <= 'z'
    ||| 'A' <= c <= 'Z'
    ||| '0' <= c <= '9'
    ||| c == '!'
    ||| '#' <= c <= '\''
    ||| c == '*'
    ||| c == '+'
    ||| c == '-'
    ||| c == '.'
    ||| '^' <= c <= '`'
    ||| c == '|'
    ||| c == '~'
}

/// Whether the text can be the name of an HTTP header.
pub open spec fn is_header_name(text: Seq<char>) -> bool {
    &&& 0 < text.len() <= 65535
    &&& forall|i: int| 0 <= i < text.len() ==> is_token_char(text[i])
}

/// The members of a JSON object, each with its text where its value is a string.
pub open spec fn members_view(members: Seq<(String, Option<String>)>) -> Seq<
    (Seq<char>, Option<Seq<char>>),
> {
    members.map_values(
        |m: (String, Option<String>)|
            (
                m.0@,
                match m.1 {
                    Some(text) => Some(text@),
                    None => None,
                },
            ),
    )
}

/// Calls `base64::Engine::decode` of `base64::engine::general_purpose::STANDARD`: the decoded
/// bytes depend on the text alone, and there are none where it is malformed.
#[verifier::external_body]
pub(crate) fn decode_base64_standard(text: &str) -> (r: Option<Vec<u8>>)
    ensures
        match r {
            Some(bytes) => base64_standard(text@) == Some(bytes@),
            None => base64_standard(text@) is None,
        },
{
    base64::Engine::decode(&base64::engine::general_purpose::STANDARD, text).ok()
}

/// Calls `base64::Engine::decode` of `base64::engine::general_purpose::URL_SAFE_NO_PAD`: the
/// decoded bytes depend on the text alone, and there are none where it is malformed.
#[verifier::external_body]
pub(crate) fn decode_base64_url_no_pad(text: &str) -> (r: Option<Vec<u8>>)
    ensures
        match r {
            Some(bytes) => base64_url_no_pad(text@) == Some(bytes@),
            None => base64_url_no_pad(text@) is None,
        },
{
    base64::Engine::decode(&base64::engine::general_purpose::URL_SAFE_NO_PAD, text).ok()
}

/// Calls `serde_json::from_slice` for a `serde_json::Value` and lists the members of an object,
/// those whose value is a string with their text. What comes back depends on the bytes alone.
#[verifier::external_body]
pub(crate) fn parse_json(bytes: &[u8]) -> (r: Option<Option<Vec<(String, Option<String>)>>>)
    ensures
        match r {
            Some(Some(members)) => json_document(bytes@) == Some(Some(members_view(members@))),
            Some(None) => json_document(bytes@) == Some(None::<Seq<(Seq<char>, Option<Seq<char>>)>>),
            None => json_document(bytes@) is None,
        },
{
    let value: Option<serde_json::Value> = serde_json::from_slice(bytes).ok();
    value.map(
        |v|
            match v {
                serde_json::Value::Object(members) => Some(
                    members.into_iter().map(|(k, v)| (k, v.as_str().map(|s| s.to_string()))).collect(),
                ),
                _ => None,
            },
    )
}

/// Calls `sha2::Sha256::digest`: the digest depends on the bytes alone and has 32 bytes.
#[verifier::external_body]
pub(crate) fn digest_sha256(bytes: &[u8]) -> (r: Vec<u8>)
    ensures
        r@ == sha256(bytes@),
        r@.len() == 32,
{
    <sha2::Sha256 as sha2::Digest>::digest(bytes).to_vec()
}

/// Calls `hex::encode`, which writes two lower-case digits per byte.
#[verifier::external_body]
pub(crate) fn encode_hex(bytes: &[u8]) -> (r: String)
    ensures
        r@ == hex_text(bytes@),
{
    hex::encode(bytes)
}

/// Calls `urlencoding::encode`, which percent-encodes the UTF-8 bytes of the text.
#[verifier::external_body]
pub(crate) fn percent_encode(text: &str) -> (r: String)
    ensures
        r@ == percent_encoded(encode_utf8(text@)),
{
    urlencoding::encode(text).into_owned()
}

/// Calls `url::Url::parse` and takes the scheme and the host of the URL, or the text of the
/// parser's error. Both depend on the text alone.
#[verifier::external_body]
pub(crate) fn parse_url(text: &str) -> (r: Result<(String, Option<String>), String>)
    ensures
        match r {
            Ok((scheme, Some(host))) => url_parsed(text@) == Ok::<
                (Seq<char>, Option<Seq<char>>),
                Seq<char>,
            >((scheme@, Some(host@))),
            Ok((scheme, None)) => url_parsed(text@) == Ok::<
                (Seq<char>, Option<Seq<char>>),
                Seq<char>,
            >((scheme@, None)),
            Err(message) => url_parsed(text@) == Err::<
                (Seq<char>, Option<Seq<char>>),
                Seq<char>,
            >(message@),
        },
{
    match url::Url::parse(text) {
        Ok(url) => Ok((url.scheme().to_string(), url.host_str().map(|h| h.to_string()))),
        Err(e) => Err(e.to_string()),
    }
}

/// Calls `reqwest::header::HeaderValue::from_str`, which accepts a text exactly where none of
/// its UTF-8 bytes is a control character other than the tab.
#[verifier::external_body]
pub(crate) fn header_value_accepts(text: &str) -> (r: bool)
    ensures
        r == is_header_value(text@),
{
    reqwest::header::HeaderValue::from_str(text).is_ok()
}

/// Calls `axum::http::HeaderValue::to_str` on a header value with the given bytes: it gives
/// their text exactly where all of them are visible ASCII characters, spaces or tabs.
#[verifier::external_body]
pub(crate) fn header_value_text(bytes: &[u8]) -> (r: Option<String>)
    ensures
        match r {
            Some(text) => (forall|i: int| 0 <= i < bytes@.len() ==> is_visible_byte(bytes@[i]))
                && text@ == bytes@.map_values(|b: u8| b as char),
            None => exists|i: int| 0 <= i < bytes@.len() && !is_visible_byte(#[trigger] bytes@[i]),
        },
{
    let value = axum::http::HeaderValue::from_bytes(bytes).ok();
    value.and_then(|v| v.to_str().ok().map(|s| s.to_string()))
}

/// Calls `reqwest::ClientBuilder::build` with a connect timeout and a total timeout, both in
/// seconds. Nothing is promised of the client, nor that it can be built.
#[verifier::external_body]
pub(crate) fn build_client_with_timeout(connect: u64, total: u64) -> (r: Result<
    reqwest::Client,
    String,
>) {
    reqwest::Client::builder()
        .connect_timeout(std::time::Duration::from_secs(connect))
        .timeout(std::time::Duration::from_secs(total))
        .build()
        .map_err(|e| e.to_string())
}

/// Calls `reqwest::ClientBuilder::build` with a connect timeout and a read timeout, both in
/// seconds. Nothing is promised of the client, nor that it can be built.
#[verifier::external_body]
pub(crate) fn build_client_with_read_timeout(connect: u64, read: u64) -> (r: Result<
    reqwest::Client,
    String,
>) {
    reqwest::Client::builder()
        .connect_timeout(std::time::Duration::from_secs(connect))
        .read_timeout(std::time::Duration::from_secs(read))
        .build()
        .map_err(|e| e.to_string())
}

/// Calls `axum::http::HeaderName::from_bytes`, which accepts a token of at most 65535
/// characters and puts its letters in lower case.
#[verifier::external_body]
pub(crate) fn normalize_header_name(text: &str) -> (r: Option<String>)
    ensures
        match r {
            Some(name) => is_header_name(text@) && name@ == ascii_lower(text@),
            None => !is_header_name(text@),
        },
{
    axum::http::HeaderName::from_bytes(text.as_bytes()).ok().map(|n| n.as_str().to_string())
}

/// Calls `rand::RngCore::fill_bytes` of `rand::thread_rng()` on as many bytes as are asked for.
/// Which bytes come back is left open.
#[verifier::external_body]
pub(crate) fn random_bytes(count: usize) -> (r: Vec<u8>)
    requires
        count <= isize::MAX,
    ensures
        r@.len() == count,
{
    let mut bytes = vec![0u8; count];
    rand::RngCore::fill_bytes(&mut rand::thread_rng(), &mut bytes);
    bytes
}

/// Calls `str::to_lowercase`: the result depends on the text alone, and of a text in ASCII only
/// the letters `A` to `Z` change.
#[verifier::external_body]
pub(crate) fn to_unicode_lower(text: &str) -> (r: String)
    ensures
        r@ == unicode_lower(text@),
        is_ascii_chars(text@) ==> r@ == ascii_lower(text@),
{
    text.to_lowercase()
}

/// Calls the `Debug` formatting of `str`, which quotes and escapes the text. The result depends
/// on the text alone.
#[verifier::external_body]
pub(crate) fn to_quoted(text: &str) -> (r: String)
    ensures
        r@ == quoted(text@),
{
    format!("{:?}", text)
}

/// Calls `String::from_utf8`, which decodes the bytes exactly where they are valid UTF-8.
#[verifier::external_body]
pub(crate) fn text_from_utf8(bytes: Vec<u8>) -> (r: Option<String>)
    ensures
        match r {
            Some(text) => valid_utf8(bytes@) && text@ == decode_utf8(bytes@),
            None => !valid_utf8(bytes@),
        },
{
    String::from_utf8(bytes).ok()
}

/// Calls `std::time::Instant::now`.
#[verifier::external_body]
pub(crate) fn instant_now() -> (r: std::time::Instant) {
    std::time::Instant::now()
}

/// Calls `std::time::Instant::elapsed` and counts the nanoseconds. Nothing is promised of the
/// number: it depends on when the call is made.
#[verifier::external_body]
pub(crate) fn nanos_since(origin: &std::time::Instant) -> (r: u64) {
    origin.elapsed().as_nanos() as u64
}

} // verus!
