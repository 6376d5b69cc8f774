use nvim_misc::about::MINIMUM_SUPPORTED_NVIM_VERSION;
use nvim_misc::{about_comments, decode_uri, escape_filename, split_at_comma, Platform};

#[test]
fn test_comma_split() {
    let res = split_at_comma("a,b");
    assert_eq!(2, res.len());
    assert_eq!("a", res[0]);
    assert_eq!("b", res[1]);

    let res = split_at_comma("a,b\\,c");
    assert_eq!(2, res.len());
    assert_eq!("a", res[0]);
    assert_eq!("b,c", res[1]);
}

#[test]
fn comma_split_without_comma_is_one_field() {
    assert_eq!(split_at_comma("abc def"), vec!["abc def".to_string()]);
    assert_eq!(split_at_comma("a\\b"), vec!["a\\b".to_string()]);
}

#[test]
fn comma_split_empty_input() {
    assert!(split_at_comma("").is_empty());
}

#[test]
fn comma_split_drops_trailing_empty_field() {
    assert_eq!(split_at_comma("a,"), vec!["a".to_string()]);
}

#[test]
fn comma_split_keeps_inner_empty_fields() {
    assert_eq!(
        split_at_comma(",a,,b"),
        vec!["".to_string(), "a".to_string(), "".to_string(), "b".to_string()]
    );
}

#[test]
fn comma_split_two_backslashes_still_escape() {
    // Only the one preceding character is looked at.
    assert_eq!(split_at_comma("a\\\\,b"), vec!["a\\,b".to_string()]);
}

#[test]
fn comma_split_escaped_trailing_comma() {
    assert_eq!(split_at_comma("a\\,"), vec!["a,".to_string()]);
}

#[test]
fn comma_split_non_ascii() {
    assert_eq!(
        split_at_comma("é,ü\\,ß"),
        vec!["é".to_string(), "ü,ß".to_string()]
    );
}

#[test]
fn comma_join_then_split_round_trip() {
    let fields = vec!["one".to_string(), "".to_string(), "two words".to_string()];
    let joined = fields.join(",");
    assert_eq!(split_at_comma(&joined), fields);
}

#[test]
fn escape_plain_name_unchanged() {
    let name = "Plain-name_01.txt";
    assert_eq!(escape_filename(name, Platform::Unix), name);
    assert_eq!(escape_filename(name, Platform::Windows), name);
}

#[test]
fn escape_space() {
    assert_eq!(escape_filename("a b.txt", Platform::Unix), "a\\ b.txt");
    assert_eq!(escape_filename("a b.txt", Platform::Windows), "a\\ b.txt");
}

#[test]
fn escape_empty() {
    assert_eq!(escape_filename("", Platform::Unix), "");
}

#[test]
fn escape_path_characters_unix() {
    assert_eq!(
        escape_filename("/tmp/C:\\x(1)", Platform::Unix),
        "/tmp/C\\:\\\\x\\(1\\)"
    );
}

#[test]
fn escape_path_characters_windows() {
    assert_eq!(
        escape_filename("C:\\dir/a&b", Platform::Windows),
        "C:\\dir\\/a\\&b"
    );
}

#[test]
fn escape_leaves_non_ascii() {
    assert_eq!(escape_filename("été $x", Platform::Unix), "été\\ \\$x");
}

#[test]
fn decode_uri_unix() {
    assert_eq!(
        decode_uri("file:///tmp/a%20file.ext", Platform::Unix),
        Some("/tmp/a file.ext".to_string())
    );
}

#[test]
fn decode_uri_windows() {
    assert_eq!(
        decode_uri("file:///C:/path/to/a%20file.ext", Platform::Windows),
        Some("C:\\path\\to\\a file.ext".to_string())
    );
}

#[test]
fn decode_uri_wrong_scheme() {
    assert_eq!(decode_uri("http://example.com", Platform::Unix), None);
    assert_eq!(decode_uri("file://host/x", Platform::Unix), None);
}

#[test]
fn decode_uri_too_short() {
    assert_eq!(decode_uri("file://", Platform::Unix), None);
    assert_eq!(decode_uri("", Platform::Windows), None);
}

#[test]
fn decode_uri_prefix_only() {
    assert_eq!(decode_uri("file:///", Platform::Unix), Some("/".to_string()));
}

#[test]
fn decode_uri_invalid_utf8() {
    assert_eq!(decode_uri("file:///tmp/%FF", Platform::Unix), None);
}

#[test]
fn decode_uri_encoded_slash_and_percent() {
    assert_eq!(
        decode_uri("file:///a%2Fb%zz%4a%C3%A9", Platform::Unix),
        Some("/a/b%zzJé".to_string())
    );
    assert_eq!(
        decode_uri("file:///C:/a%2fb", Platform::Windows),
        Some("C:\\a\\b".to_string())
    );
}

#[test]
fn decode_uri_reencode_round_trip() {
    let decoded = decode_uri("file:///tmp/a%20b%25c", Platform::Unix).unwrap();
    assert_eq!(decoded, "/tmp/a b%c");
    let again = format!("file://{}", decoded.replace('%', "%25").replace(' ', "%20"));
    assert_eq!(decode_uri(&again, Platform::Unix), Some(decoded));
}

#[test]
fn about_text() {
    let text = about_comments();
    assert_eq!(
        text,
        format!(
            "Build on top of neovim\nMinimum supported neovim version: {}",
            MINIMUM_SUPPORTED_NVIM_VERSION
        )
    );
    assert!(text.ends_with(MINIMUM_SUPPORTED_NVIM_VERSION));
}
