//! Calls into other crates, and what is taken from them on trust.

use crate::json;
use crate::text;
use vstd::prelude::*;
use vstd::utf8;

verus! {

// ---------------------------------------------------------------------------
// JSON documents
// ---------------------------------------------------------------------------

/// `serde_json::Value`, a JSON document that was read.
#[verifier::external_type_specification]
#[verifier::external_body]
pub struct ExJsonValue(serde_json::Value);

/// The strings that a JSON document holds, each under the pointer that leads to it.
pub uninterp spec fn json_texts(value: serde_json::Value) -> Map<Seq<char>, Seq<char>>;

/// The arrays that a JSON document holds, each by its length and under the pointer that
/// leads to it.
pub uninterp spec fn json_lengths(value: serde_json::Value) -> Map<Seq<char>, nat>;

/// `serde_json::Value::pointer`, where it leads to a string. What is there depends on
/// the document and the pointer alone: it is the string that [`json_texts`] has under
/// the pointer, and nothing where the pointer leads nowhere or to something else.
#[verifier::external_body]
pub(crate) fn text_at(value: &serde_json::Value, pointer: &str) -> (text: Option<String>)
    ensures
        text is Some <==> json_texts(*value).dom().contains(pointer@),
        text is Some ==> text->0@ == json_texts(*value)[pointer@],
{
    value.pointer(pointer).and_then(|found| found.as_str()).map(str::to_owned)
}

/// `serde_json::Value::pointer`, where it leads to an array. Its length is the one that
/// [`json_lengths`] has under the pointer; there is none where the pointer leads nowhere
/// or to something else.
#[verifier::external_body]
pub(crate) fn array_length_at(value: &serde_json::Value, pointer: &str) -> (length: Option<usize>)
    ensures
        length is Some <==> json_lengths(*value).dom().contains(pointer@),
        length is Some ==> length->0 as nat == json_lengths(*value)[pointer@],
{
    value.pointer(pointer).and_then(|found| found.as_array()).map(Vec::len)
}

// ---------------------------------------------------------------------------
// Addresses
// ---------------------------------------------------------------------------

/// The host of an address as the URL standard reads it, where it can be read and has one.
pub uninterp spec fn url_host_of(text: Seq<char>) -> Option<Seq<char>>;

/// `reqwest::Url::parse` and the host of what it read, as text: a function of the text
/// alone, here named [`url_host_of`]. What the standard makes of a text is left unsaid.
#[verifier::external_body]
pub(crate) fn url_host(text: &str) -> (host: Option<String>)
    ensures
        host is Some <==> url_host_of(text@) is Some,
        host is Some ==> host->0@ == url_host_of(text@)->0,
{
    reqwest::Url::parse(text).ok()?.host_str().map(str::to_owned)
}

// ---------------------------------------------------------------------------
// Text
// ---------------------------------------------------------------------------

/// The lower-case form of a text, by the Unicode tables of the standard library.
pub uninterp spec fn lowercase(text: Seq<char>) -> Seq<char>;

/// `str::to_lowercase` is a function of the text alone, here named [`lowercase`]. Of text
/// that is all ASCII it changes the letters from `A` to `Z` and nothing else. What the
/// tables say of other text is left unsaid.
pub assume_specification[ str::to_lowercase ](value: &str) -> (lower: String)
    ensures
        lower@ == lowercase(value@),
        utf8::is_ascii_chars(value@) ==> lower@ == text::ascii_lower_text(value@),
;

/// `String::push` appends one character.
pub assume_specification[ String::push ](string: &mut String, c: char)
    ensures
        final(string)@ == old(string)@.push(c),
;

// ---------------------------------------------------------------------------
// Writing JSON
// ---------------------------------------------------------------------------

/// `serde_json::Error`, what goes wrong with JSON.
#[verifier::external_type_specification]
#[verifier::external_body]
pub struct ExJsonError(serde_json::Error);

/// `serde_json::to_string` on a text, which never fails: the text comes out between
/// quotation marks. A quotation mark, a backslash and the control characters below the
/// blank are escaped as [`json::escape`] has them, and every other character stands for
/// itself.
#[verifier::external_body]
pub(crate) fn json_string(value: &str) -> (quoted: Result<String, serde_json::Error>)
    ensures
        quoted is Ok,
        quoted->Ok_0@ == json::quoted(value@),
{
    serde_json::to_string(value)
}

// ---------------------------------------------------------------------------
// HTTP
// ---------------------------------------------------------------------------

/// An HTTP status as text: its number and what it is called.
pub uninterp spec fn status_line(code: u16) -> Seq<char>;

/// `reqwest::StatusCode::from_u16`, which takes the numbers from 100 to 999, and the
/// text of the status: a function of the number, here named [`status_line`]. It is the
/// number in decimal notation, a blank, and what the status is called; what that is for
/// each number is left unsaid.
#[verifier::external_body]
pub(crate) fn status_text(code: u16) -> (line: String)
    requires
        100 <= code <= 999,
    ensures
        line@ == status_line(code),
        text::starts_with(line@, text::decimal(code as nat) + " "@),
{
    reqwest::StatusCode::from_u16(code).map(|status| status.to_string()).unwrap_or_default()
}

// ---------------------------------------------------------------------------
// Ids
// ---------------------------------------------------------------------------

/// Whether a text has the shape of a random UUID: 32 hexadecimal digits in lower case,
/// in five groups with hyphens between them, the version in its place.
pub open spec fn is_uuid_text(s: Seq<char>) -> bool {
    &&& s.len() == 36
    &&& forall|i: int|
        0 <= i < 36 ==> if i == 8 || i == 13 || i == 18 || i == 23 {
            #[trigger] s[i] == '-'
        } else {
            text::is_ascii_digit(s[i]) || 'a' as u32 <= s[i] as u32 <= 'f' as u32
        }
    &&& s[14] == '4'
}

/// `uuid::Uuid::new_v4` and its text. It is drawn at random, so that nothing more than
/// its shape holds of every draw: not even that two of them differ.
#[verifier::external_body]
pub(crate) fn new_id() -> (id: String)
    ensures
        is_uuid_text(id@),
{
    uuid::Uuid::new_v4().to_string()
}

// ---------------------------------------------------------------------------
// Bytes
// ---------------------------------------------------------------------------

/// Bytes read as UTF-8, with replacement characters for what is none.
pub uninterp spec fn lossy_text(bytes: Seq<u8>) -> Seq<char>;

/// `String::from_utf8_lossy`: a function of the bytes alone, here named [`lossy_text`].
/// Bytes that are the encoding of a text come out as that text, and so does the
/// encoding of a text at their beginning: only what is invalid is replaced. What comes
/// in place of invalid bytes is left unsaid.
#[verifier::external_body]
pub(crate) fn text_from_utf8_lossy(bytes: &[u8]) -> (read: String)
    ensures
        read@ == lossy_text(bytes@),
        forall|s: Seq<char>| bytes@ == #[trigger] utf8::encode_utf8(s) ==> read@ == s,
        forall|s: Seq<char>|
            (#[trigger] utf8::encode_utf8(s)).is_prefix_of(bytes@) ==> s.is_prefix_of(read@),
{
    String::from_utf8_lossy(bytes).into_owned()
}

} // verus!
