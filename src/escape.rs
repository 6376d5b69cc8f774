use vstd::prelude::*;

use crate::platform::Platform;
use crate::text::regex_replace_all;

verus! {

/// Characters that are never escaped: ASCII digits and letters, `.`, `_`,
/// `-`, and the platform's path characters (`:` and `\` on Windows, `/`
/// elsewhere).
pub open spec fn is_exempt(c: char, p: Platform) -> bool {
    ('0' <= c && c <= '9') || ('a' <= c && c <= 'z') || ('A' <= c && c <= 'Z') || c == '.'
        || c == '_' || c == '-' || match p {
        Platform::Windows => c == ':' || c == '\\',
        Platform::Unix => c == '/',
    }
}

/// An ASCII character that is not exempt gets a backslash in front of it.
pub open spec fn needs_escape(c: char, p: Platform) -> bool {
    (c as u32) < 128 && !is_exempt(c, p)
}

/// `s` with a backslash inserted before every character that needs escaping.
pub open spec fn escaped(s: Seq<char>, p: Platform) -> Seq<char>
    decreases s.len(),
{
    if s.len() == 0 {
        s
    } else {
        escaped(s.drop_last(), p) + if needs_escape(s.last(), p) {
            seq!['\\', s.last()]
        } else {
            seq![s.last()]
        }
    }
}

/// The regular expression, a single character class, that matches exactly
/// the characters for which `needs_escape` holds.
pub open spec fn special_chars_pattern(p: Platform) -> Seq<char> {
    match p {
        Platform::Windows => "[[:ascii:]&&[^0-9a-zA-Z._:\\\\-]]"@,
        Platform::Unix => "[[:ascii:]&&[^0-9a-zA-Z._/-]]"@,
    }
}

/// The replacement text that puts a backslash before the whole match.
pub open spec fn backslash_before_match() -> Seq<char> {
    "\\$0"@
}

fn special_chars(p: Platform) -> (r: &'static str)
    ensures
        r@ == special_chars_pattern(p),
{
    match p {
        Platform::Windows => "[[:ascii:]&&[^0-9a-zA-Z._:\\\\-]]",
        Platform::Unix => "[[:ascii:]&&[^0-9a-zA-Z._/-]]",
    }
}

/// Escapes the special ASCII characters of `filename` with a backslash.
/// Non-ASCII characters and exempt ones are kept as they are.
pub fn escape_filename(filename: &str, platform: Platform) -> (r: String)
    ensures
        r@ == escaped(filename@, platform),
{
    let pattern = special_chars(platform);
    let replacement = "\\$0";
    proof {
        reveal_strlit("\\$0");
    }
    regex_replace_all(pattern, filename, replacement)
}

/// A name made only of ASCII digits, letters, `.`, `_` and `-` is left
/// exactly as it is.
pub proof fn lemma_escape_plain_name(s: Seq<char>, p: Platform)
    requires
        forall|k: int|
            0 <= k < s.len() ==> ('0' <= #[trigger] s[k] && s[k] <= '9') || ('a' <= s[k] && s[k]
                <= 'z') || ('A' <= s[k] && s[k] <= 'Z') || s[k] == '.' || s[k] == '_' || s[k]
                == '-',
    ensures
        escaped(s, p) == s,
    decreases s.len(),
{
    if s.len() > 0 {
        lemma_escape_plain_name(s.drop_last(), p);
        assert(s.drop_last() + seq![s.last()] =~= s);
    }
}

} // verus!
