use vstd::prelude::*;
use vstd::string::StringSliceAdditionalSpecFns;
use vstd::utf8::{
    decode_utf8, encode_utf8, leading_byte_width_1, leading_byte_width_2, leading_byte_width_3,
    leading_byte_width_4, valid_utf8,
};

use crate::platform::Platform;
use crate::text::{percent_decode_utf8, regex_replace_all};

verus! {

/// `s` with every `/` turned into `\`.
pub open spec fn slashes_to_backslashes(s: Seq<char>) -> Seq<char> {
    s.map_values(|c: char| if c == '/' { '\\' } else { c })
}

/// The bytes of `file:///`.
pub open spec fn file_prefix() -> Seq<u8> {
    seq![
        'f' as u8,
        'i' as u8,
        'l' as u8,
        'e' as u8,
        ':' as u8,
        '/' as u8,
        '/' as u8,
        '/' as u8,
    ]
}

/// The URI starts with `file:///`.
pub open spec fn has_file_prefix(uri: Seq<u8>) -> bool {
    uri.len() >= 8 && uri.subrange(0, 8) == file_prefix()
}

/// A hexadecimal digit, of either case.
pub open spec fn is_hex_digit(b: u8) -> bool {
    ('0' as u8 <= b && b <= '9' as u8) || ('a' as u8 <= b && b <= 'f' as u8) || ('A' as u8 <= b
        && b <= 'F' as u8)
}

/// The value of a hexadecimal digit, of either case.
pub open spec fn hex_value(b: u8) -> int {
    if b <= '9' as u8 {
        b - '0' as u8
    } else if b >= 'a' as u8 {
        b - 'a' as u8 + 10
    } else {
        b - 'A' as u8 + 10
    }
}

/// Percent-decoding: `%` followed by two hexadecimal digits gives the byte
/// they spell; every other byte, a `%` without two digits after it
/// included, stands for itself.
pub open spec fn percent_decoded(s: Seq<u8>) -> Seq<u8>
    decreases s.len(),
{
    if s.len() == 0 {
        s
    } else if s[0] == '%' as u8 && s.len() >= 3 && is_hex_digit(s[1]) && is_hex_digit(s[2]) {
        seq![(hex_value(s[1]) * 16 + hex_value(s[2])) as u8] + percent_decoded(
            s.subrange(3, s.len() as int),
        )
    } else {
        seq![s[0]] + percent_decoded(s.subrange(1, s.len() as int))
    }
}

/// The decoded bytes of the path of a `file:///` URI, the prefix removed.
pub open spec fn uri_path_bytes(uri: Seq<u8>) -> Seq<u8> {
    percent_decoded(uri.subrange(8, uri.len() as int))
}

/// The native form of a decoded path: on Windows slashes become
/// backslashes (the path starts with its drive); elsewhere the leading `/`
/// that the triple-slash form leaves out is put back.
pub open spec fn native_path(text: Seq<char>, p: Platform) -> Seq<char> {
    match p {
        Platform::Windows => slashes_to_backslashes(text),
        Platform::Unix => seq!['/'] + text,
    }
}

/// Decodes a `file:///` URI into a native path. The path is percent-decoded
/// first and read as UTF-8; the separators are changed after that, so an
/// encoded `%2F` becomes a separator like any other slash. Gives `None` when
/// the URI does not start with `file:///` or the decoded path is not UTF-8.
pub fn decode_uri(uri: &str, platform: Platform) -> (r: Option<String>)
    ensures
        r is Some <==> has_file_prefix(uri.spec_bytes()) && valid_utf8(
            uri_path_bytes(uri.spec_bytes()),
        ),
        r is Some ==> r->0@ == native_path(
            decode_utf8(uri_path_bytes(uri.spec_bytes())),
            platform,
        ),
        !(uri@.len() >= 8 && uri@.subrange(0, 8) == "file:///"@) ==> r is None,
{
    proof {
        lemma_file_prefix_chars(uri@);
    }
    let b = uri.as_bytes();
    if b.len() < 8 {
        return None;
    }
    let (head, rest) = b.split_at(8);
    if !(head[0] == 'f' as u8 && head[1] == 'i' as u8 && head[2] == 'l' as u8 && head[3]
        == 'e' as u8 && head[4] == ':' as u8 && head[5] == '/' as u8 && head[6] == '/' as u8
        && head[7] == '/' as u8) {
        assert(head@ != file_prefix());
        return None;
    }
    assert(head@ =~= file_prefix());
    let path = match percent_decode_utf8(rest) {
        Some(path) => path,
        None => return None,
    };
    match platform {
        Platform::Windows => {
            proof {
                reveal_strlit("/");
                reveal_strlit("\\");
            }
            Some(regex_replace_all("/", path.as_str(), "\\"))
        },
        Platform::Unix => {
            proof {
                reveal_strlit("/");
            }
            let mut out = "/".to_owned();
            out.append(path.as_str());
            assert(out@ =~= seq!['/'] + path@);
            Some(out)
        },
    }
}

/// Bytes that percent-encoding leaves as they are: ASCII letters and
/// digits, `-`, `.`, `_`, `~` and the separator `/`.
pub open spec fn is_unreserved(b: u8) -> bool {
    (('0' as u8) <= b && b <= ('9' as u8)) || (('a' as u8) <= b && b <= ('z' as u8)) || (('A' as u8)
        <= b && b <= ('Z' as u8)) || b == ('-' as u8) || b == ('.' as u8) || b == ('_' as u8) || b
        == ('~' as u8) || b == ('/' as u8)
}

/// The upper-case hexadecimal digit for `n` in `0..16`.
pub open spec fn hex_digit(n: int) -> u8 {
    if n < 10 {
        (('0' as u8) + n) as u8
    } else {
        (('A' as u8) + n - 10) as u8
    }
}

/// Percent-encoding: every byte that is not unreserved becomes `%` and two
/// upper-case hexadecimal digits.
pub open spec fn percent_encoded(t: Seq<u8>) -> Seq<u8>
    decreases t.len(),
{
    if t.len() == 0 {
        t
    } else if is_unreserved(t[0]) {
        seq![t[0]] + percent_encoded(t.drop_first())
    } else {
        seq![('%' as u8), hex_digit(t[0] as int / 16), hex_digit(t[0] as int % 16)] + percent_encoded(
            t.drop_first(),
        )
    }
}

/// Percent-decoding undoes percent-encoding.
pub proof fn lemma_encode_then_decode(t: Seq<u8>)
    ensures
        percent_decoded(percent_encoded(t)) == t,
    decreases t.len(),
{
    if t.len() > 0 {
        let e = percent_encoded(t);
        let rest = percent_encoded(t.drop_first());
        lemma_encode_then_decode(t.drop_first());
        if is_unreserved(t[0]) {
            assert(e.subrange(1, e.len() as int) =~= rest);
        } else {
            let b = t[0];
            assert(e.subrange(3, e.len() as int) =~= rest);
            assert(is_hex_digit(e[1]) && is_hex_digit(e[2]));
            assert(hex_value(e[1]) == b as int / 16);
            assert(hex_value(e[2]) == b as int % 16);
            assert((b as int / 16) * 16 + b as int % 16 == b as int);
        }
        assert(seq![t[0]] + t.drop_first() =~= t);
    }
}

/// Decoding a file URI, percent-encoding the decoded path again and
/// decoding the new URI gives the same path text.
pub proof fn lemma_decode_reencode(uri: Seq<u8>)
    requires
        has_file_prefix(uri),
        valid_utf8(uri_path_bytes(uri)),
    ensures
        ({
            let again = file_prefix() + percent_encoded(uri_path_bytes(uri));
            &&& has_file_prefix(again)
            &&& uri_path_bytes(again) == uri_path_bytes(uri)
            &&& valid_utf8(uri_path_bytes(again))
        }),
{
    let text = uri_path_bytes(uri);
    let again = file_prefix() + percent_encoded(text);
    assert(again.subrange(0, 8) =~= file_prefix());
    assert(again.subrange(8, again.len() as int) =~= percent_encoded(text));
    lemma_encode_then_decode(text);
}

/// The bytes of ASCII characters.
pub open spec fn ascii_bytes(q: Seq<char>) -> Seq<u8> {
    q.map_values(|c: char| (c as u32) as u8)
}

proof fn lemma_first_byte(u: Seq<char>)
    requires
        u.len() > 0,
    ensures
        encode_utf8(u).len() > 0,
        (u[0] as u32) < 128 ==> encode_utf8(u)[0] == (u[0] as u32) as u8 && encode_utf8(u).drop_first()
            == encode_utf8(u.drop_first()),
        (u[0] as u32) >= 128 ==> encode_utf8(u)[0] >= 128,
{
    let c = u[0] as u32;
    let e = encode_utf8(u);
    let rest = encode_utf8(u.drop_first());
    if c < 128 {
        assert(leading_byte_width_1(c) == c as u8) by (bit_vector)
            requires
                c < 128,
        ;
        assert(e.drop_first() =~= rest);
    } else {
        let b2 = ((c >> 6) & 0x1F) as u8;
        let b3 = ((c >> 12) & 0x0F) as u8;
        let b4 = ((c >> 18) & 0x7) as u8;
        assert((0xC0u8 | b2) >= 128u8) by (bit_vector);
        assert((0xE0u8 | b3) >= 128u8) by (bit_vector);
        assert((0xF0u8 | b4) >= 128u8) by (bit_vector);
        assert(leading_byte_width_2(c) >= 128);
        assert(leading_byte_width_3(c) >= 128);
        assert(leading_byte_width_4(c) >= 128);
    }
}

proof fn lemma_ascii_prefix(u: Seq<char>, q: Seq<char>)
    requires
        forall|i: int| 0 <= i < q.len() ==> (#[trigger] q[i] as u32) < 128,
    ensures
        (encode_utf8(u).len() >= q.len() && encode_utf8(u).subrange(0, q.len() as int)
            == ascii_bytes(q)) <==> (u.len() >= q.len() && u.subrange(0, q.len() as int) == q),
    decreases q.len(),
{
    let e = encode_utf8(u);
    let n = q.len() as int;
    if n == 0 {
        assert(e.subrange(0, 0) =~= ascii_bytes(q));
        assert(u.subrange(0, 0) =~= q);
    } else if u.len() == 0 {
    } else {
        lemma_first_byte(u);
        let q1 = q.drop_first();
        assert((q[0] as u32) < 128);
        if (u[0] as u32) < 128 {
            lemma_ascii_prefix(u.drop_first(), q1);
            let e1 = encode_utf8(u.drop_first());
            if e.len() >= n && e.subrange(0, n) == ascii_bytes(q) {
                assert(e.subrange(0, n)[0] == e[0]);
                assert(e1.subrange(0, n - 1) =~= ascii_bytes(q1)) by {
                    assert forall|i: int| 0 <= i < n - 1 implies e1.subrange(0, n - 1)[i]
                        == ascii_bytes(q1)[i] by {
                        assert(e.subrange(0, n)[i + 1] == ascii_bytes(q)[i + 1]);
                    }
                }
                let x = u[0] as u32;
                let y = q[0] as u32;
                assert(x == y) by (bit_vector)
                    requires
                        x < 128,
                        y < 128,
                        x as u8 == y as u8,
                ;
                vstd::utf8::char_u32_cast(u[0], x);
                vstd::utf8::char_u32_cast(q[0], y);
                assert(u.subrange(0, n) =~= q) by {
                    assert forall|i: int| 0 <= i < n implies u.subrange(0, n)[i] == q[i] by {
                        if i > 0 {
                            assert(u.drop_first().subrange(0, n - 1)[i - 1] == q1[i - 1]);
                        }
                    }
                }
            }
            if u.len() >= n && u.subrange(0, n) == q {
                assert(u.subrange(0, n)[0] == u[0]);
                assert(u.drop_first().subrange(0, n - 1) =~= q1);
                assert(e.subrange(0, n) =~= ascii_bytes(q)) by {
                    assert forall|i: int| 0 <= i < n implies e.subrange(0, n)[i]
                        == ascii_bytes(q)[i] by {
                        if i > 0 {
                            assert(e1.subrange(0, n - 1)[i - 1] == ascii_bytes(q1)[i - 1]);
                        }
                    }
                }
            }
        } else {
            if e.len() >= n && e.subrange(0, n) == ascii_bytes(q) {
                assert(e.subrange(0, n)[0] == e[0]);
            }
            if u.len() >= n && u.subrange(0, n) == q {
                assert(u.subrange(0, n)[0] == u[0]);
            }
        }
    }
}

/// Testing the bytes agrees with testing the characters: the UTF-8 bytes
/// of a text start with `file:///` exactly when its first eight characters
/// are `file:///`.
pub proof fn lemma_file_prefix_chars(u: Seq<char>)
    ensures
        has_file_prefix(encode_utf8(u)) <==> (u.len() >= 8 && u.subrange(0, 8) == "file:///"@),
{
    reveal_strlit("file:///");
    let q = "file:///"@;
    assert(q =~= seq!['f', 'i', 'l', 'e', ':', '/', '/', '/']);
    assert(ascii_bytes(q) =~= file_prefix());
    lemma_ascii_prefix(u, q);
}

} // verus!
