use fullrust::bytes_parse::{find_byte, find_pair, parse_unsigned, rfind_byte, split_bytes};
use fullrust::lines::{is_whitespace, lines, split_on_char, split_whitespace, strip_comment, trim};
use fullrust::text::{rfind_char, str_chars, trim_end_len};

fn cs(s: &str) -> Vec<char> {
    s.chars().collect()
}

fn strs(v: Vec<Vec<char>>) -> Vec<String> {
    v.into_iter().map(|c| c.into_iter().collect()).collect()
}

#[test]
fn byte_splitting_like_str_split() {
    assert_eq!(split_bytes(b"a.b..c", b'.'), vec![b"a".to_vec(), b"b".to_vec(), vec![], b"c".to_vec()]);
    assert_eq!(split_bytes(b"", b'.'), vec![Vec::<u8>::new()]);
    assert_eq!(split_bytes(b".", b'.'), vec![Vec::<u8>::new(), Vec::<u8>::new()]);
}

#[test]
fn byte_searches() {
    assert_eq!(find_pair(b"[::1]:80", b']', b':'), Some(4));
    assert_eq!(find_pair(b"abc", b'b', b'x'), None);
    assert_eq!(rfind_byte(b"a:b:c", b':'), Some(3));
    assert_eq!(rfind_byte(b"abc", b':'), None);
    assert_eq!(find_byte(b"a:b:c", b':'), Some(1));
    assert_eq!(find_byte(b"", b':'), None);
}

#[test]
fn unsigned_parsing() {
    assert_eq!(parse_unsigned(b"255", 10, 255), Some(255));
    assert_eq!(parse_unsigned(b"256", 10, 255), None);
    assert_eq!(parse_unsigned(b"+7", 10, 255), Some(7));
    assert_eq!(parse_unsigned(b"+", 10, 255), None);
    assert_eq!(parse_unsigned(b"", 10, 255), None);
    assert_eq!(parse_unsigned(b"-1", 10, 255), None);
    assert_eq!(parse_unsigned(b"ffff", 16, 65535), Some(65535));
    assert_eq!(parse_unsigned(b"FfF", 16, 65535), Some(4095));
    assert_eq!(parse_unsigned(b"10000", 16, 65535), None);
    assert_eq!(parse_unsigned(b"00000000000000000001", 10, 65535), Some(1));
    assert_eq!(parse_unsigned(b"1g", 16, 65535), None);
}

#[test]
fn char_helpers() {
    assert_eq!(str_chars("héllo"), cs("héllo"));
    assert_eq!(trim_end_len(&cs("a/b//"), '/'), 3);
    assert_eq!(trim_end_len(&cs("///"), '/'), 0);
    assert_eq!(rfind_char(&cs("a/b/c"), 5, '/'), Some(3));
    assert_eq!(rfind_char(&cs("a/b/c"), 3, '/'), Some(1));
    assert_eq!(rfind_char(&cs("abc"), 3, '/'), None);
}

#[test]
fn whitespace_and_lines() {
    assert!(is_whitespace(' ') && is_whitespace('\t') && is_whitespace('\u{3000}'));
    assert!(!is_whitespace('x'));
    assert_eq!(strs(split_on_char(&cs("a,b,,c"), ',')), vec!["a", "b", "", "c"]);
    assert_eq!(strs(lines(&cs("one\r\ntwo\n\nthree\n"))), vec!["one", "two", "", "three"]);
    assert_eq!(strs(lines(&cs(""))), Vec::<String>::new());
    assert_eq!(strs(lines(&cs("x"))), vec!["x"]);
    assert_eq!(trim(&cs("  a b \t")).into_iter().collect::<String>(), "a b");
    assert_eq!(trim(&cs("   ")).len(), 0);
    assert_eq!(strs(split_whitespace(&cs("  127.0.0.1  localhost\tlo "))), vec!["127.0.0.1", "localhost", "lo"]);
    assert_eq!(strip_comment(&cs("nameserver 1.1.1.1 # cf")).into_iter().collect::<String>(), "nameserver 1.1.1.1 ");
    assert_eq!(strip_comment(&cs("plain")).into_iter().collect::<String>(), "plain");
}
