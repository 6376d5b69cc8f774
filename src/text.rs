use vstd::prelude::*;

use crate::escape::{backslash_before_match, escaped, special_chars_pattern};
use crate::platform::Platform;
use crate::uri::{percent_decoded, slashes_to_backslashes};
use vstd::utf8::{decode_utf8, valid_utf8};

verus! {

/// Relies on `String::push`: the character is appended at the end.
#[verifier::external_body]
pub(crate) fn push_char(s: &mut String, c: char)
    ensures
        final(s)@ == old(s)@.push(c),
{
    s.push(c)
}

/// Relies on `regex::Regex::new` and `Regex::replace_all`, on the three
/// patterns that the `requires` admits, all of which compile. A class
/// pattern of `special_chars_pattern` matches one character at a time,
/// exactly those for which `needs_escape` holds, and the replacement `\$0`
/// writes a backslash and then the match. The pattern `/` matches each
/// slash, and a replacement without `$` is written literally.
#[verifier::external_body]
pub(crate) fn regex_replace_all(pattern: &str, text: &str, replacement: &str) -> (r: String)
    requires
        pattern@ == special_chars_pattern(Platform::Windows) || pattern@ == special_chars_pattern(
            Platform::Unix,
        ) || pattern@ == "/"@,
    ensures
        pattern@ == special_chars_pattern(Platform::Windows) && replacement@
            == backslash_before_match() ==> r@ == escaped(text@, Platform::Windows),
        pattern@ == special_chars_pattern(Platform::Unix) && replacement@
            == backslash_before_match() ==> r@ == escaped(text@, Platform::Unix),
        pattern@ == "/"@ && replacement@ == "\\"@ ==> r@ == slashes_to_backslashes(text@),
{
    regex::Regex::new(pattern).unwrap().replace_all(text, replacement).into_owned()
}

/// Relies on `percent_encoding::percent_decode` and `PercentDecode::decode_utf8`:
/// `%` and two hexadecimal digits of either case give the byte they spell,
/// any other byte stands for itself, and the bytes are then read as UTF-8,
/// which fails exactly when they are not valid UTF-8.
#[verifier::external_body]
pub(crate) fn percent_decode_utf8(bytes: &[u8]) -> (r: Option<String>)
    ensures
        r is Some <==> valid_utf8(percent_decoded(bytes@)),
        r is Some ==> r->0@ == decode_utf8(percent_decoded(bytes@)),
{
    match percent_encoding::percent_decode(bytes).decode_utf8() {
        Ok(text) => Some(text.into_owned()),
        Err(_) => None,
    }
}

} // verus!
