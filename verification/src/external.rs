//! The calls that the library makes into other crates, each with the
//! contract that the library relies on.

use vstd::prelude::*;

use sha2::Digest;

verus! {

/// The view of an optional text.
pub open spec fn text_option(o: Option<String>) -> Option<Seq<char>> {
    match o {
        Some(s) => Some(s@),
        None => None,
    }
}

/// The lowercase hexadecimal digit of `d` (for `0 <= d <= 15`).
pub open spec fn hex_digit_char(d: int) -> char {
    if d < 10 {
        crate::text::digit_char(d)
    } else if d == 10 {
        'a'
    } else if d == 11 {
        'b'
    } else if d == 12 {
        'c'
    } else if d == 13 {
        'd'
    } else if d == 14 {
        'e'
    } else {
        'f'
    }
}

/// The last `n` lowercase hexadecimal digits of `v`, most significant first.
pub open spec fn hex_digits(v: nat, n: nat) -> Seq<char>
    decreases n,
{
    if n == 0 {
        Seq::empty()
    } else {
        hex_digits(v / 16, (n - 1) as nat).push(hex_digit_char((v % 16) as int))
    }
}

/// Two lowercase hexadecimal digits for each byte, in order.
pub open spec fn lower_hex(bytes: Seq<u8>) -> Seq<char>
    decreases bytes.len(),
{
    if bytes.len() == 0 {
        Seq::empty()
    } else {
        lower_hex(bytes.drop_last()) + hex_digits(bytes.last() as nat, 2)
    }
}

/// The hyphenated form of a 128-bit UUID: its 32 lowercase hexadecimal
/// digits, big-endian, in groups of 8, 4, 4, 4 and 12 joined by `-`.
pub open spec fn uuid_text(v: u128) -> Seq<char> {
    let h = hex_digits(v as nat, 32);
    h.subrange(0, 8) + seq!['-'] + h.subrange(8, 12) + seq!['-'] + h.subrange(12, 16) + seq!['-']
        + h.subrange(16, 20) + seq!['-'] + h.subrange(20, 32)
}

/// The serialization of the URL that the `url` crate parses from `text`,
/// or `None` where it refuses the text.
pub uninterp spec fn url_parsed(text: Seq<char>) -> Option<Seq<char>>;

/// The serialization of the URL that the `url` crate resolves from `input`
/// against the URL parsed from `base`, or `None` where either step fails.
pub uninterp spec fn url_joined(base: Seq<char>, input: Seq<char>) -> Option<Seq<char>>;

/// The SHA-256 digest of `data`, as the `sha2` crate computes it.
pub uninterp spec fn sha256_of(data: Seq<u8>) -> Seq<u8>;

/// The object of strings that `serde_json` reads from `text`, as its
/// entries in increasing key order, or `None` where the text is not such an
/// object.
pub uninterp spec fn json_string_object(text: Seq<char>) -> Option<Seq<(Seq<char>, Seq<char>)>>;

/// The file name that `std::path::Path::file_name` finds in `path`: its
/// final component where that is a normal file name, or `None`.
pub uninterp spec fn path_file_name(path: Seq<char>) -> Option<Seq<char>>;

/// The position of the last `c` in `s`, or -1 where there is none.
pub open spec fn last_position(s: Seq<char>, c: char) -> int
    decreases s.len(),
{
    if s.len() == 0 {
        -1
    } else if s.last() == c {
        s.len() - 1
    } else {
        last_position(s.drop_last(), c)
    }
}

/// The stem of a file name: the whole name where it holds no `.`, or where
/// its only `.` is its first character; else the part before its last `.`.
pub open spec fn stem_of(name: Seq<char>) -> Seq<char> {
    let i = last_position(name, '.');
    if i <= 0 {
        name
    } else {
        name.take(i)
    }
}

/// The stem that `std::path::Path::file_stem` finds in `path`: that of its
/// file name, if it has one.
pub open spec fn path_file_stem(path: Seq<char>) -> Option<Seq<char>> {
    match path_file_name(path) {
        Some(n) => Some(stem_of(n)),
        None => None,
    }
}

/// The text that `{:?}` prints for the string `s`.
pub uninterp spec fn debug_text(s: Seq<char>) -> Seq<char>;

#[verifier::external_type_specification]
#[verifier::external_body]
pub struct ExJsonError(serde_json::Error);

/// Calls `url::Url::parse` and returns the serialization of the result
/// (`Url::as_str`). The contract only names the outcome: the WHATWG URL
/// parsing rules are not restated here.
#[verifier::external_body]
pub(crate) fn parse_url(text: &str) -> (r: Option<String>)
    ensures
        text_option(r) == url_parsed(text@),
{
    url::Url::parse(text).ok().map(|u| u.as_str().to_string())
}

/// Parses `base` with `url::Url::parse` and calls `url::Url::join` with
/// `input`, returning the serialization of the result. The contract only
/// names the outcome: the URL resolution rules are not restated here.
#[verifier::external_body]
pub(crate) fn join_url(base: &str, input: &str) -> (r: Option<String>)
    ensures
        text_option(r) == url_joined(base@, input@),
{
    url::Url::parse(base).ok().and_then(|u| u.join(input).ok()).map(|u| u.as_str().to_string())
}

/// Calls `<sha2::Sha256 as Digest>::digest`: the digest is named, and it is
/// 32 bytes long, the output size of SHA-256.
#[verifier::external_body]
pub(crate) fn sha256(data: &[u8]) -> (r: Vec<u8>)
    ensures
        r@ == sha256_of(data@),
        r@.len() == 32,
{
    sha2::Sha256::digest(data).to_vec()
}

/// Calls `hex::encode`, which writes each byte as two lowercase hexadecimal
/// digits, high half first.
#[verifier::external_body]
pub(crate) fn encode_hex(bytes: &[u8]) -> (r: String)
    ensures
        r@ == lower_hex(bytes@),
{
    hex::encode(bytes)
}

/// Formats `uuid::Uuid::from_u128(v)` with `Display`, which writes the
/// hyphenated lowercase form of the big-endian bytes of `v`.
#[verifier::external_body]
pub(crate) fn format_uuid(v: u128) -> (r: String)
    ensures
        r@ == uuid_text(v),
{
    uuid::Uuid::from_u128(v).to_string()
}

/// Calls `serde_json::from_str` for a map from strings to strings and
/// returns its entries in key order (the map is a `BTreeMap`). The contract
/// names the outcome; the JSON grammar is not restated here.
#[verifier::external_body]
pub(crate) fn parse_json_string_object(text: &str) -> (r: Result<
    Vec<(String, String)>,
    serde_json::Error,
>)
    ensures
        match r {
            Ok(v) => json_string_object(text@) == Some(
                v@.map_values(|e: (String, String)| (e.0@, e.1@)),
            ),
            Err(_) => json_string_object(text@) is None,
        },
{
    serde_json::from_str::<std::collections::BTreeMap<String, String>>(text).map(
        |m| m.into_iter().collect(),
    )
}

/// Calls `std::path::Path::file_stem` on `path` and reads the stem as UTF-8
/// (`OsStr::to_str`). As std documents it, the stem is absent where the path
/// has no file name, and is otherwise cut from the file name by the rule of
/// `stem_of`; a file name is part of the text `path`, so it reads as text.
/// The contract names the file name; how a path splits into components is
/// not restated.
#[verifier::external_body]
pub(crate) fn file_stem(path: &str) -> (r: Option<String>)
    ensures
        text_option(r) == match path_file_name(path@) {
            Some(n) => Some(stem_of(n)),
            None => None,
        },
{
    std::path::Path::new(path).file_stem().and_then(|s| s.to_str()).map(|s| s.to_string())
}

/// Formats `s` with `{:?}`: quoted, with its special characters escaped.
/// The contract names the outcome; the escaping rules are not restated.
#[verifier::external_body]
pub(crate) fn debug_quote(s: &str) -> (r: String)
    ensures
        r@ == debug_text(s@),
{
    format!("{:?}", s)
}

} // verus!
