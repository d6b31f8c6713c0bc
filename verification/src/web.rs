//! The address that a web search opens.

use vstd::prelude::*;
use vstd::string::StringExecFns;
use vstd::utf8::encode_utf8;

verus! {

/// Whether a byte stands for itself in a percent-encoded text: a digit, a
/// letter of the Latin alphabet, or one of `-`, `.`, `_`, `~`.
pub open spec fn is_unreserved(byte: u8) -> bool {
    ||| 0x30 <= byte <= 0x39
    ||| 0x41 <= byte <= 0x5A
    ||| 0x61 <= byte <= 0x7A
    ||| byte == 0x2D
    ||| byte == 0x2E
    ||| byte == 0x5F
    ||| byte == 0x7E
}

/// The upper-case hexadecimal digit of a number below sixteen.
pub open spec fn hex_digit(nibble: u8) -> char {
    if nibble < 10 {
        (0x30 + nibble) as u8 as char
    } else {
        (0x37 + nibble) as u8 as char
    }
}

/// One byte, percent-encoded.
pub open spec fn escaped(byte: u8) -> Seq<char> {
    if is_unreserved(byte) {
        seq![byte as char]
    } else {
        seq!['%', hex_digit(byte / 16), hex_digit(byte % 16)]
    }
}

/// A run of bytes, percent-encoded byte by byte.
pub open spec fn percent_encoded(bytes: Seq<u8>) -> Seq<char>
    decreases bytes.len(),
{
    if bytes.len() == 0 {
        Seq::empty()
    } else {
        percent_encoded(bytes.drop_last()) + escaped(bytes.last())
    }
}

/// Calls `urlencoding::encode`, which percent-encodes every byte of the
/// text's UTF-8 form except the unreserved ones, with upper-case digits.
#[verifier::external_body]
fn percent_encode(text: &str) -> (encoded: String)
    ensures
        encoded@ == percent_encoded(encode_utf8(text@)),
{
    urlencoding::encode(text).into_owned()
}

/// Calls `str::starts_with` with a string as the pattern: whether the text
/// begins with it.
#[verifier::external_body]
fn starts_with(text: &str, prefix: &str) -> (yes: bool)
    ensures
        yes == prefix@.is_prefix_of(text@),
{
    text.starts_with(prefix)
}

/// The address for a query: a query that begins with `http` is taken as an
/// address itself; any other becomes a search for its text.
pub open spec fn search_url_of(query: Seq<char>) -> Seq<char> {
    if "http"@.is_prefix_of(query) {
        query
    } else {
        "https://www.google.com/search?q="@ + percent_encoded(encode_utf8(query))
    }
}

/// The address that a web search for the query opens.
pub fn search_url(query: &str) -> (url: String)
    ensures
        url@ == search_url_of(query@),
{
    if starts_with(query, "http") {
        query.to_owned()
    } else {
        let mut url = "https://www.google.com/search?q=".to_owned();
        let encoded = percent_encode(query);
        url.append(encoded.as_str());
        url
    }
}

} // verus!
