//! What the library takes on trust: functions of the standard library and of
//! other crates, each with the facts about it that the proofs rest on.
use std::io::Read;

use base64::Engine;
use vstd::prelude::*;
use vstd::utf8::{encode_utf8, valid_utf8};

use crate::text::opt_text;

verus! {

/// `String::push` appends one character to the end of the string and leaves
/// what was there before as it is.
pub assume_specification[ String::push ](s: &mut String, c: char)
    ensures
        final(s)@ == old(s)@.push(c),
;

/// `String::from_utf8` gives back the text whose UTF-8 encoding the bytes are,
/// and refuses bytes that are not valid UTF-8.
#[verifier::external_body]
pub(crate) fn decode_text(bytes: Vec<u8>) -> (r: Option<String>)
    ensures
        r is Some <==> valid_utf8(bytes@),
        r matches Some(t) ==> encode_utf8(t@) == bytes@,
{
    String::from_utf8(bytes).ok()
}

/// The characters of the standard base64 alphabet, and the padding.
pub open spec fn is_base64_char(c: char) -> bool {
    'A' <= c <= 'Z' || 'a' <= c <= 'z' || '0' <= c <= '9' || c == '+' || c == '/' || c == '='
}

/// The base64 encoding takes four characters for every three bytes begun.
pub open spec fn base64_len(bytes: nat) -> nat {
    (bytes + 2) / 3 * 4
}

/// What `base64::Engine::encode` makes of the UTF-8 encoding of a text, with
/// the standard alphabet and padding.
pub uninterp spec fn base64_text(text: Seq<char>) -> Seq<char>;

/// `base64::Engine::encode` of the engine `general_purpose::STANDARD`. What it
/// returns depends on the bytes of the text alone, is made of characters of
/// the standard alphabet and padding, has four of them for every three bytes
/// begun, and comes from no other text. It panics where the result would not
/// fit into memory, so such texts are excluded.
#[verifier::external_body]
pub(crate) fn base64_encode(text: &str) -> (r: String)
    requires
        base64_len(encode_utf8(text@).len()) <= isize::MAX,
    ensures
        r@ == base64_text(text@),
        r@.len() == base64_len(encode_utf8(text@).len()),
        forall|i: int| 0 <= i < r@.len() ==> is_base64_char(#[trigger] r@[i]),
        forall|other: Seq<char>| #[trigger] base64_text(other) == r@ ==> other == text@,
{
    base64::engine::general_purpose::STANDARD.encode(text)
}

/// A result with its value and its complaint taken as mathematical values.
pub open spec fn result_view<T: View>(r: Result<T, String>) -> Result<T::V, Seq<char>> {
    match r {
        Ok(t) => Ok(t@),
        Err(e) => Err(e@),
    }
}

/// What `snailquote::unescape` makes of a text: the text without its quotes
/// and with its escapes resolved, or the wording of the complaint about it.
pub uninterp spec fn unescaped(text: Seq<char>) -> Result<Seq<char>, Seq<char>>;

/// Whether a text has neither single nor double quotes in it.
pub open spec fn unquoted(text: Seq<char>) -> bool {
    forall|i: int| 0 <= i < text.len() ==> #[trigger] text[i] != '\'' && text[i] != '"'
}

/// `snailquote::unescape`, its error in words. What it returns depends on the
/// text alone, and a text without quotes comes back as it is: escapes count
/// between double quotes only.
#[verifier::external_body]
pub(crate) fn unescape(text: &str) -> (r: Result<String, String>)
    ensures
        result_view(r) == unescaped(text@),
        unquoted(text@) ==> r is Ok && r->Ok_0@ == text@,
{
    snailquote::unescape(text).map_err(|e| e.to_string())
}

/// What `flate2::read::GzDecoder` reads out of the first member of a gzip
/// file, or the wording of its complaint about the file.
pub uninterp spec fn gunzipped(bytes: Seq<u8>) -> Result<Seq<u8>, Seq<char>>;

/// `flate2::read::GzDecoder`, read to the end, its error in words. What it
/// returns depends on the bytes alone.
#[verifier::external_body]
pub(crate) fn gunzip(bytes: &[u8]) -> (r: Result<Vec<u8>, String>)
    ensures
        result_view(r) == gunzipped(bytes@),
{
    let mut data = Vec::new();
    match flate2::read::GzDecoder::new(bytes).read_to_end(&mut data) {
        Ok(_) => Ok(data),
        Err(e) => Err(e.to_string()),
    }
}

/// What `time::OffsetDateTime::format` writes for the RFC 2822 date of a
/// moment, given in seconds since 1970 and seconds east of Greenwich, if it
/// can be written.
pub uninterp spec fn rfc2822(unix_seconds: i64, offset_seconds: i32) -> Option<Seq<char>>;

/// A moment from 1970 up to the last day of 9999, at an offset of whole
/// minutes below a day.
pub open spec fn ordinary_moment(unix_seconds: i64, offset_seconds: i32) -> bool {
    0 <= unix_seconds < 253_402_214_400 && -86_400 < offset_seconds < 86_400 && offset_seconds as int
        % 60 == 0
}

/// `time::OffsetDateTime::format` with the description `Rfc2822`. What it
/// returns depends on the moment and the offset alone. The crate writes dates
/// from 1900 to 9999 at offsets of whole minutes, so an ordinary moment has one.
#[verifier::external_body]
pub(crate) fn format_rfc2822(unix_seconds: i64, offset_seconds: i32) -> (r: Option<String>)
    ensures
        opt_text(r) == rfc2822(unix_seconds, offset_seconds),
        ordinary_moment(unix_seconds, offset_seconds) ==> r is Some,
{
    let offset = time::UtcOffset::from_whole_seconds(offset_seconds).ok()?;
    let utc = time::OffsetDateTime::from_unix_timestamp(unix_seconds).ok()?;
    let moment = utc.checked_to_offset(offset)?;
    moment.format(&time::format_description::well_known::Rfc2822).ok()
}

} // verus!
