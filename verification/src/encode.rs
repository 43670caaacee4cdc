//! Calls that compute on plain values: the form-urlencoded byte serializer of
//! the `url` crate and Unicode lowercasing.

use vstd::prelude::*;
use vstd::string::*;
use vstd::utf8::{decode_utf8, valid_utf8};

verus! {

/// The bytes that `application/x-www-form-urlencoded` serialization leaves as
/// they are: ASCII letters, digits, `*`, `-`, `.` and `_`.
pub open spec fn form_unreserved(b: u8) -> bool {
    ||| b == 0x2a
    ||| b == 0x2d
    ||| b == 0x2e
    ||| (0x30 <= b && b <= 0x39)
    ||| (0x41 <= b && b <= 0x5a)
    ||| b == 0x5f
    ||| (0x61 <= b && b <= 0x7a)
}

/// The upper-case hexadecimal digit for `d < 16`.
pub open spec fn hex_upper(d: nat) -> char {
    if d < 10 {
        (d + 48) as char
    } else {
        (d + 55) as char
    }
}

/// The form-urlencoding of one byte: itself when unreserved, `+` for a space,
/// `%XX` in upper-case hexadecimal otherwise.
pub open spec fn form_encode_byte(b: u8) -> Seq<char> {
    if form_unreserved(b) {
        seq![b as char]
    } else if b == 0x20 {
        seq!['+']
    } else {
        seq!['%', hex_upper((b / 16) as nat), hex_upper((b % 16) as nat)]
    }
}

/// The form-urlencoding of a byte sequence, byte by byte.
pub open spec fn form_urlencode(bytes: Seq<u8>) -> Seq<char>
    decreases bytes.len(),
{
    if bytes.len() == 0 {
        Seq::empty()
    } else {
        form_encode_byte(bytes[0]) + form_urlencode(bytes.drop_first())
    }
}

/// `url::form_urlencoded::byte_serialize`, its pieces collected into one
/// string. Its contract claims what that crate's source does: each byte in
/// `*-._`, `0-9`, `A-Z`, `a-z` is kept, a space becomes `+`, every other
/// byte becomes `%` and two upper-case hexadecimal digits.
#[verifier::external_body]
fn byte_serialize(bytes: &[u8]) -> (r: String)
    ensures
        r@ == form_urlencode(bytes@),
{
    url::form_urlencoded::byte_serialize(bytes).collect()
}

/// The form-urlencoding of the UTF-8 bytes of `s`.
pub fn form_urlencode_str(s: &str) -> (r: String)
    ensures
        r@ == form_urlencode(s.spec_bytes()),
{
    byte_serialize(s.as_bytes())
}

/// Names what `str::to_lowercase` returns for a character sequence: its
/// Unicode lowercase mapping.
pub uninterp spec fn lowercase_of(s: Seq<char>) -> Seq<char>;

/// `str::to_lowercase` (std). Its contract claims only that the result is a
/// function of the characters of `s`, named `lowercase_of`; the Unicode
/// case tables themselves are left unsaid.
#[verifier::external_body]
pub(crate) fn to_lowercase(s: &str) -> (r: String)
    ensures
        r@ == lowercase_of(s@),
{
    s.to_lowercase()
}

/// Names what `String::from_utf8_lossy` returns for a byte sequence: its
/// UTF-8 decoding, each invalid sequence replaced by U+FFFD.
pub uninterp spec fn utf8_lossy(bytes: Seq<u8>) -> Seq<char>;

/// `String::from_utf8_lossy` (std), made an owned string. Its contract
/// claims that the result is a function of the bytes, named `utf8_lossy`,
/// and that valid UTF-8 is decoded exactly, as std documents; how the
/// invalid sequences of other input are replaced is left unsaid.
#[verifier::external_body]
pub(crate) fn decode_utf8_lossy(bytes: &[u8]) -> (r: String)
    ensures
        r@ == utf8_lossy(bytes@),
        valid_utf8(bytes@) ==> r@ == decode_utf8(bytes@),
{
    String::from_utf8_lossy(bytes).into_owned()
}

} // verus!
