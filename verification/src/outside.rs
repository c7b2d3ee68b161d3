//! The calls that this library makes into other crates, each behind a
//! trusted wrapper whose contract states what the called crate's source
//! and documentation show. Verus does not check these contracts.

use vstd::prelude::*;
use crate::text::occurs_at;
use encoding::Encoding;

verus! {

/// The text that capture group `group` of the regular expression
/// `pattern` matches in `haystack`, at its leftmost-first match; `None`
/// when the pattern does not compile, does not match, or the group takes
/// no part in the match.
pub uninterp spec fn regex_group_of(pattern: Seq<char>, haystack: Seq<char>, group: nat) -> Option<Seq<char>>;

/// The decoded key/value pairs of the query of the URL that `input`
/// denotes, in order; `None` when `input` is not an absolute URL.
pub uninterp spec fn url_query_pairs_of(input: Seq<char>) -> Option<Seq<(Seq<char>, Seq<char>)>>;

/// The lowercase form of `s` under the Unicode `Lowercase` mapping.
pub uninterp spec fn lowercase_of(s: Seq<char>) -> Seq<char>;

/// The SHA-256 digest of the UTF-8 bytes of `s`, written in lowercase
/// hexadecimal.
pub uninterp spec fn sha256_hex_of(s: Seq<char>) -> Seq<char>;

/// The rows of a JSON document that is an array of arrays of strings;
/// `None` when `json` is not such a document.
pub uninterp spec fn json_string_rows_of(json: Seq<char>) -> Option<Seq<Seq<Seq<char>>>>;

/// The compact JSON text of an array of arrays of strings.
pub uninterp spec fn json_of_string_rows(rows: Seq<Seq<Seq<char>>>) -> Seq<char>;

/// The pretty-printed JSON text of a list of download failures, each
/// an array of file name, HTTP status and body bytes.
pub uninterp spec fn pretty_json_of_failures(failures: Seq<(Seq<char>, u16, Seq<u8>)>) -> Seq<char>;

/// Whether `b` is a byte that percent-encoding leaves alone: an ASCII
/// letter or digit, `-`, `.`, `_` or `~`.
pub open spec fn is_unreserved(b: u8) -> bool {
    ||| (48 <= b && b <= 57)
    ||| (65 <= b && b <= 90)
    ||| (97 <= b && b <= 122)
    ||| b == 45 || b == 46 || b == 95 || b == 126
}

/// The uppercase hexadecimal digit for `d` in `0..16`.
pub open spec fn hex_digit_upper(d: u8) -> char {
    if d < 10 {
        (48 + d) as char
    } else {
        (55 + d) as char
    }
}

/// The percent-encoding of a byte string: unreserved bytes stand for
/// themselves, every other byte becomes `%` and two uppercase hex digits.
pub open spec fn percent_encoded(bytes: Seq<u8>) -> Seq<char>
    decreases bytes.len(),
{
    if bytes.len() == 0 {
        Seq::empty()
    } else {
        let b = bytes[0];
        let head = if is_unreserved(b) {
            seq![b as char]
        } else {
            seq!['%', hex_digit_upper(b / 16), hex_digit_upper(b % 16)]
        };
        head + percent_encoded(bytes.drop_first())
    }
}

/// Calls `Regex::new(pattern)` and `Regex::captures(haystack)` of the
/// `regex` crate and returns the text of capture group `group`. The
/// contract names the result and adds only what the crate documents of
/// `Match::as_str`: the text is a piece of the haystack.
#[verifier::external_body]
pub(crate) fn regex_group(pattern: &str, haystack: &str, group: usize) -> (res: Option<String>)
    ensures
        res.deep_view() == regex_group_of(pattern@, haystack@, group as nat),
        res matches Some(m) ==> exists|i: int| occurs_at(haystack@, m@, i),
{
    let re = regex::Regex::new(pattern).ok()?;
    let caps = re.captures(haystack)?;
    caps.get(group).map(|m| m.as_str().to_string())
}

/// Calls `<url::Url as FromStr>::from_str(input)` and `Url::query_pairs`
/// of the `url` crate; returns the pairs as owned strings. The contract
/// names the result.
#[verifier::external_body]
pub(crate) fn url_query_pairs(input: &str) -> (res: Option<Vec<(String, String)>>)
    ensures
        res.deep_view() == url_query_pairs_of(input@),
{
    let url = input.parse::<url::Url>().ok()?;
    Some(url.query_pairs().map(|(k, v)| (k.into_owned(), v.into_owned())).collect())
}

/// Calls `str::to_lowercase`. The contract names the result.
#[verifier::external_body]
pub(crate) fn lowercase(s: &str) -> (res: String)
    ensures
        res@ == lowercase_of(s@),
{
    s.to_lowercase()
}

/// Calls `sha256::digest` of the `sha256` crate on a string. The contract
/// names the result and adds what the crate's source shows: the digest
/// is 32 bytes written with `hex::encode`, so 64 lowercase hex digits.
#[verifier::external_body]
pub(crate) fn sha256_hex(s: &str) -> (res: String)
    ensures
        res@ == sha256_hex_of(s@),
        res@.len() == 64,
        forall|i: int|
            0 <= i < 64 ==> ('0' <= #[trigger] res@[i] <= '9' || 'a' <= res@[i] <= 'f'),
{
    sha256::digest(s)
}

/// Calls `urlencoding::encode` of the `urlencoding` crate. The contract
/// states what the crate documents and its source does: every byte of
/// the UTF-8 form of `s` except ASCII letters, digits and `-._~` is
/// written as `%` and two uppercase hex digits.
#[verifier::external_body]
pub(crate) fn url_encode(s: &str) -> (res: String)
    ensures
        res@ == percent_encoded(vstd::utf8::encode_utf8(s@)),
{
    urlencoding::encode(s).into_owned()
}

/// Calls `Encoding::decode` of the `encoding` crate with
/// `all::ISO_8859_1` and `DecoderTrap::Strict`. The crate's source maps
/// each byte to the character with the same code and never reports an
/// error for this encoding, and the contract says so.
#[verifier::external_body]
pub(crate) fn decode_latin1(bytes: &[u8]) -> (res: Option<String>)
    ensures
        res is Some,
        res matches Some(s) ==> s@ == bytes@.map_values(|b: u8| b as char),
{
    encoding::all::ISO_8859_1.decode(bytes, encoding::DecoderTrap::Strict).ok()
}

/// Calls `serde_json::from_str` to read an array of arrays of strings.
/// The contract names the result.
#[verifier::external_body]
pub(crate) fn json_string_rows(json: &str) -> (res: Option<Vec<Vec<String>>>)
    ensures
        res.deep_view() == json_string_rows_of(json@),
{
    serde_json::from_str::<Vec<Vec<String>>>(json).ok()
}

/// Calls `serde_json::to_string` on an array of arrays of strings. The
/// contract names the text and says that the call succeeds: the crate
/// documents failure only for a `Serialize` impl that fails or a map with
/// non-string keys, and strings and vectors of them are neither.
#[verifier::external_body]
pub(crate) fn json_string_rows_text(rows: &Vec<Vec<String>>) -> (res: Option<String>)
    ensures
        res is Some,
        res matches Some(t) ==> t@ == json_of_string_rows(rows.deep_view()),
{
    serde_json::to_string(rows).ok()
}

/// Calls `serde_json::to_string_pretty` on a list of download failures.
/// The contract names the text and says that the call succeeds: the
/// crate documents failure only for a `Serialize` impl that fails or a
/// map with non-string keys, and strings, `u16`, byte vectors, tuples
/// and vectors of them are neither.
#[verifier::external_body]
pub(crate) fn failures_json_text(failures: &Vec<(String, u16, Vec<u8>)>) -> (res: Option<String>)
    ensures
        res is Some,
        res matches Some(t) ==> t@ == pretty_json_of_failures(failures.deep_view()),
{
    serde_json::to_string_pretty(failures).ok()
}

} // verus!
