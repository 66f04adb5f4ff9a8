//! What the library takes on trust from other crates and from std.
//!
//! Each item states what the called function does, as its source or documentation shows it; none
//! of these statements is proved here. Paths are Unix paths throughout.
use crate::paths::{cleaned, extension};
use vstd::prelude::*;
use vstd::utf8::*;

verus! {

// ---------------------------------------------------------------------------------------------
// urlencoding
// ---------------------------------------------------------------------------------------------
/// The value of a hexadecimal digit, in either case.
pub open spec fn hex_value(b: u8) -> Option<int> {
    if 0x30 <= b <= 0x39 {
        Some(b - 0x30)
    } else if 0x41 <= b <= 0x46 {
        Some(b - 0x41 + 10)
    } else if 0x61 <= b <= 0x66 {
        Some(b - 0x61 + 10)
    } else {
        None
    }
}

/// Tells whether `bytes` opens with a percent sign (`0x25`) and two hexadecimal digits.
pub open spec fn opens_with_escape(bytes: Seq<u8>) -> bool {
    &&& bytes.len() >= 3
    &&& bytes[0] == 0x25
    &&& hex_value(bytes[1]) is Some
    &&& hex_value(bytes[2]) is Some
}

/// The bytes that a percent-encoded text stands for: each percent sign with two hexadecimal digits
/// behind it is the byte with that value, and every other byte is itself.
pub open spec fn percent_decoded(bytes: Seq<u8>) -> Seq<u8>
    decreases bytes.len(),
{
    if bytes.len() == 0 {
        bytes
    } else if opens_with_escape(bytes) {
        seq![(hex_value(bytes[1])->0 * 16 + hex_value(bytes[2])->0) as u8] + percent_decoded(
            bytes.skip(3),
        )
    } else {
        seq![bytes[0]] + percent_decoded(bytes.skip(1))
    }
}

/// The error of a conversion of bytes that are not UTF-8.
#[verifier::external_type_specification]
#[verifier::external_body]
pub struct ExFromUtf8Error(std::string::FromUtf8Error);

/// `urlencoding::decode`: decodes the percent escapes of a text, and fails just when the bytes
/// that they stand for are not UTF-8.
#[verifier::external_body]
pub(crate) fn url_decode(data: &str) -> (r: Result<String, std::string::FromUtf8Error>)
    ensures
        match r {
            Ok(text) => encode_utf8(text@) == percent_decoded(encode_utf8(data@)),
            Err(_) => !valid_utf8(percent_decoded(encode_utf8(data@))),
        },
{
    urlencoding::decode(data).map(|text| text.into_owned())
}

// ---------------------------------------------------------------------------------------------
// path_clean
// ---------------------------------------------------------------------------------------------
/// `path_clean::clean`: the shortest path with the same meaning by its text alone. It drops
/// repeated slashes and each `.`, lets each `..` take the entry before it along, drops `..` at the
/// root, keeps `..` at the front of a relative path, and gives `.` for nothing.
#[verifier::external_body]
pub(crate) fn clean_path(path: &str) -> (r: Vec<u8>)
    ensures
        r@ == cleaned(encode_utf8(path@)),
{
    path_clean::clean(path).into_os_string().into_encoded_bytes()
}

// ---------------------------------------------------------------------------------------------
// mime_guess
// ---------------------------------------------------------------------------------------------
/// The media type that `mime_guess` has for an extension in lower case, or
/// `application/octet-stream` if it has none.
pub uninterp spec fn media_type(ext: Seq<u8>) -> Seq<char>;

/// An extension with its ASCII letters in lower case.
pub open spec fn ascii_lowered(ext: Seq<u8>) -> Seq<u8> {
    Seq::new(
        ext.len(),
        |i: int|
            if 0x41 <= ext[i] <= 0x5a {
                (ext[i] + 0x20) as u8
            } else {
                ext[i]
            },
    )
}

/// `mime_guess::from_path` and `first_or_octet_stream` on what it gives: the media type goes by
/// the extension of the path alone, whatever the case of its letters, and is
/// `application/octet-stream` for a path without one or with one that is empty or not UTF-8. A
/// media type is made of visible ASCII characters.
///
/// Bytes of the path that are not UTF-8 are handed over as replacement characters. That changes
/// neither where a slash or a dot stands nor, as no known extension holds such a character, what
/// is found.
#[verifier::external_body]
pub(crate) fn guess_media_type(path: &[u8]) -> (r: String)
    ensures
        match extension(path@) {
            None => r@ == "application/octet-stream"@,
            Some(ext) => {
                &&& r@ == media_type(ascii_lowered(ext))
                &&& ext.len() == 0 || !valid_utf8(ext) ==> r@ == "application/octet-stream"@
            },
        },
        forall|i: int| 0 <= i < r@.len() ==> '!' <= #[trigger] r@[i] <= '~',
{
    let text = String::from_utf8_lossy(path);
    mime_guess::from_path(text.as_ref()).first_or_octet_stream().as_ref().to_owned()
}

// ---------------------------------------------------------------------------------------------
// num_cpus
// ---------------------------------------------------------------------------------------------
/// `num_cpus::get`: the number of processors at hand, at least one.
pub assume_specification[ num_cpus::get ]() -> (r: usize)
    ensures
        r >= 1,
;

// ---------------------------------------------------------------------------------------------
// chrono
// ---------------------------------------------------------------------------------------------
/// Tells whether `c` is a decimal digit.
pub open spec fn is_digit(c: char) -> bool {
    '0' <= c <= '9'
}

/// Tells whether a text is a date and a time in the shape `year-MM-DD hh:mm:ss.mmm`, with a year of
/// at least four digits that may have a sign.
pub open spec fn is_timestamp(t: Seq<char>) -> bool {
    let y = t.len() - 19;
    &&& y >= 4
    &&& forall|i: int| 0 < i < y ==> is_digit(#[trigger] t[i])
    &&& is_digit(t[0]) || ((t[0] == '+' || t[0] == '-') && y >= 5)
    &&& t[y] == '-' && is_digit(t[y + 1]) && is_digit(t[y + 2])
    &&& t[y + 3] == '-' && is_digit(t[y + 4]) && is_digit(t[y + 5])
    &&& t[y + 6] == ' ' && is_digit(t[y + 7]) && is_digit(t[y + 8])
    &&& t[y + 9] == ':' && is_digit(t[y + 10]) && is_digit(t[y + 11])
    &&& t[y + 12] == ':' && is_digit(t[y + 13]) && is_digit(t[y + 14])
    &&& t[y + 15] == '.' && is_digit(t[y + 16]) && is_digit(t[y + 17]) && is_digit(t[y + 18])
}

/// The format for [`local_time`].
pub open spec fn timestamp_format() -> Seq<char> {
    "%Y-%m-%d %H:%M:%S%.3f"@
}

/// `chrono::Local::now` and `format` on what it gives: the present date and time of the machine's
/// time zone as a text in the shape that the format asks for. Which date and time it is rests on
/// the machine. The clock must not stand before 1970: chrono does not return a time from before.
#[verifier::external_body]
pub(crate) fn local_time(format: &str) -> (r: String)
    requires
        format@ == timestamp_format(),
    ensures
        is_timestamp(r@),
{
    chrono::Local::now().format(format).to_string()
}

// ---------------------------------------------------------------------------------------------
// std
// ---------------------------------------------------------------------------------------------
/// The text that bytes are shown as: see [`show_bytes`].
pub uninterp spec fn shown(bytes: Seq<u8>) -> Seq<char>;

/// `String::from_utf8_lossy`: the text of some bytes, which is the text that they encode if they
/// are UTF-8, and holds replacement characters if they are not.
#[verifier::external_body]
pub(crate) fn show_bytes(bytes: &[u8]) -> (r: String)
    ensures
        r@ == shown(bytes@),
        valid_utf8(bytes@) ==> r@ == decode_utf8(bytes@),
{
    String::from_utf8_lossy(bytes).into_owned()
}

} // verus!
