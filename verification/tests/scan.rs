use nanoserve::number::{parse_u64, push_decimal};
use nanoserve::request::{header_end, next_token, parse_header_line, parse_range_value, parse_request_line, split_line};
use nanoserve::scan::{
    find_byte, find_pattern, is_ascii_space, skip_whitespace, starts_at, token_end, trim_end,
    whitespace_width, whitespace_width_before,
};
use nanoserve::text::{
    append_bytes, ascii_lowercase, same_text, same_text_ignoring_ascii_case, strip_prefix,
    text_of, trim_text,
};
use nanoserve::{RangeHeader, Request};

#[test]
fn whitespace_is_what_std_calls_whitespace() {
    for c in (0..=0x10ffffu32).filter_map(char::from_u32) {
        let mut buffer = [0u8; 4];
        let encoded = c.encode_utf8(&mut buffer).as_bytes();
        let expected = if c.is_whitespace() { encoded.len() } else { 0 };
        assert_eq!(whitespace_width(encoded, 0), expected, "U+{:04X}", c as u32);
        assert_eq!(whitespace_width_before(encoded, encoded.len()), expected, "U+{:04X}", c as u32);
        let mut padded = b"x".to_vec();
        padded.extend_from_slice(encoded);
        padded.push(b'y');
        assert_eq!(whitespace_width(&padded, 1), expected);
        assert_eq!(whitespace_width_before(&padded, padded.len() - 1), expected);
    }
}

#[test]
fn whitespace_width_at_the_edges() {
    assert_eq!(whitespace_width(b"", 0), 0);
    assert_eq!(whitespace_width(b" ", 1), 0);
    assert_eq!(whitespace_width(b" ", 7), 0);
    assert_eq!(whitespace_width(b"\xc2", 0), 0);
    assert_eq!(whitespace_width(b"\xe2\x80", 0), 0);
    assert_eq!(whitespace_width(b"\xe2\x80\x8b", 0), 0);
    assert_eq!(whitespace_width_before(b"", 0), 0);
    assert_eq!(whitespace_width_before(b"\x85", 1), 0);
    assert_eq!(whitespace_width_before(b"a ", 1), 0);
    assert!(is_ascii_space(b'\t') && is_ascii_space(0x0b) && is_ascii_space(b' '));
    assert!(!is_ascii_space(0x08) && !is_ascii_space(0x0e) && !is_ascii_space(b'a'));
}

#[test]
fn skipping_and_tokens() {
    let s = " \t ab\u{2003}cd \r\n".as_bytes();
    assert_eq!(skip_whitespace(s, 0), 3);
    assert_eq!(skip_whitespace(s, 3), 3);
    assert_eq!(token_end(s, 3), 5);
    assert_eq!(skip_whitespace(s, 5), 8);
    assert_eq!(token_end(s, 8), 10);
    assert_eq!(skip_whitespace(s, 10), s.len());
    assert_eq!(token_end(s, s.len()), s.len());
    assert_eq!(skip_whitespace(s, s.len() + 5), s.len() + 5);
    assert_eq!(token_end(s, s.len() + 5), s.len() + 5);
    assert_eq!(trim_end(s, s.len()), 10);
    assert_eq!(trim_end(s, 10), 10);
    assert_eq!(trim_end(s, 8), 5);
    assert_eq!(trim_end(b"   ", 3), 0);
    assert_eq!(trim_end(b"", 0), 0);
}

#[test]
fn trimming_agrees_with_std() {
    for s in [
        "",
        " ",
        "a",
        "  a b  ",
        "\u{a0}\u{1680} x\u{3000}\u{2028}",
        "\r\n\t\u{85}",
        "\u{e9}t\u{e9} ",
        " \u{200b} ",
        "\u{feff}a",
    ] {
        assert_eq!(trim_text(s), s.trim(), "{s:?}");
    }
}

#[test]
fn tokens_agree_with_std() {
    for s in ["GET / HTTP/1.1", "  a\tb\u{a0}c  ", "\u{2003}x", "", "   ", "one"] {
        let mut tokens = Vec::new();
        let mut from = 0;
        loop {
            let (start, end) = next_token(s, from);
            if start == end {
                break;
            }
            tokens.push(&s[start..end]);
            from = end;
        }
        assert_eq!(tokens, s.split_whitespace().collect::<Vec<_>>(), "{s:?}");
    }
}

#[test]
fn finding_bytes_and_patterns() {
    assert_eq!(find_byte(b"a:b:c", b':', 0), 1);
    assert_eq!(find_byte(b"a:b:c", b':', 2), 3);
    assert_eq!(find_byte(b"a:b:c", b':', 4), 5);
    assert_eq!(find_byte(b"a:b:c", b':', 9), 5);
    assert_eq!(find_byte(b"", b':', 0), 0);
    assert_eq!(find_pattern(b"ab\n\ncd\n\n", b"\n\n"), Some(2));
    assert_eq!(find_pattern(b"ab\ncd", b"\n\n"), None);
    assert_eq!(find_pattern(b"\n", b"\n\n"), None);
    assert_eq!(find_pattern(b"\r\n\r\n", b"\r\n\r\n"), Some(0));
    assert_eq!(find_pattern(b"x\r\n\r\r\n\r\n", b"\r\n\r\n"), Some(4));
    assert_eq!(find_pattern(b"abc", b""), Some(0));
    assert!(starts_at(b"abc", b"bc", 1));
    assert!(!starts_at(b"abc", b"bc", 2));
    assert!(!starts_at(b"abc", b"bc", 9));
    assert!(starts_at(b"abc", b"", 3));
}

#[test]
fn header_end_prefers_carriage_returns() {
    assert_eq!(header_end(b""), 0);
    assert_eq!(header_end(b"abc"), 3);
    assert_eq!(header_end(b"a\n\nb"), 3);
    assert_eq!(header_end(b"a\r\n\r\nb"), 5);
    assert_eq!(header_end(b"a\n\nb\r\n\r\nc"), 8);
    assert_eq!(header_end(b"a\r\n\r\nb\n\nc"), 5);
    assert_eq!(header_end(b"a\r\n\nb"), 4);
    assert_eq!(header_end(b"a\r\nb"), 4);
}

#[test]
fn lines_are_split_at_line_feeds() {
    assert_eq!(split_line("a\r\nb\nc"), ("a\r", "b\nc"));
    assert_eq!(split_line("abc"), ("abc", ""));
    assert_eq!(split_line("abc\n"), ("abc", ""));
    assert_eq!(split_line("\nabc"), ("", "abc"));
    assert_eq!(split_line(""), ("", ""));
}

#[test]
fn header_lines() {
    assert_eq!(parse_header_line("Host: a"), Some(("Host", "a")));
    assert_eq!(parse_header_line("Host:a:b"), Some(("Host", "a:b")));
    assert_eq!(parse_header_line(":"), Some(("", "")));
    assert_eq!(parse_header_line("K \u{a0}:\tv w"), Some(("K", "v w")));
    assert_eq!(parse_header_line("no colon"), None);
    assert_eq!(parse_header_line(""), None);
}

#[test]
fn request_lines() {
    assert_eq!(parse_request_line("GET / HTTP/1.1"), Some(("GET", "/", "1.1")));
    assert_eq!(parse_request_line(" PUT\t/x\u{3000}HTTP/ \r"), Some(("PUT", "/x", "")));
    assert_eq!(parse_request_line("GET / HTTP/1.1 x"), Some(("GET", "/", "1.1")));
    assert_eq!(parse_request_line("GET / x HTTP/1.1"), None);
    assert_eq!(parse_request_line("GET / HTTP"), None);
    assert_eq!(parse_request_line("GET /"), None);
    assert_eq!(parse_request_line(""), None);
}

#[test]
fn range_values() {
    assert_eq!(parse_range_value("bytes=0-99"), RangeHeader::Bytes(Some(0), Some(99)));
    assert_eq!(parse_range_value("bytes=100-"), RangeHeader::Bytes(Some(100), None));
    assert_eq!(parse_range_value("bytes=-500"), RangeHeader::Bytes(None, Some(500)));
    assert_eq!(parse_range_value("bytes"), RangeHeader::Invalid);
    assert_eq!(parse_range_value("bytes=\u{661}-\u{662}"), RangeHeader::Invalid);
}

#[test]
fn numbers() {
    assert_eq!(parse_u64(b"0"), Some(0));
    assert_eq!(parse_u64(b"+0"), Some(0));
    assert_eq!(parse_u64(b"0042"), Some(42));
    assert_eq!(parse_u64(b"18446744073709551615"), Some(u64::MAX));
    assert_eq!(parse_u64(b"18446744073709551616"), None);
    assert_eq!(parse_u64(b"28446744073709551615"), None);
    assert_eq!(parse_u64(b"184467440737095516150"), None);
    assert_eq!(parse_u64(b""), None);
    assert_eq!(parse_u64(b"+"), None);
    assert_eq!(parse_u64(b"++1"), None);
    assert_eq!(parse_u64(b"-1"), None);
    assert_eq!(parse_u64(b"1+"), None);
    assert_eq!(parse_u64(b"12a"), None);
    assert_eq!(parse_u64(b" 1"), None);
    assert_eq!(parse_u64(b"1 "), None);
    assert_eq!(parse_u64(b"0x10"), None);
    assert_eq!(parse_u64(b"1_000"), None);
}

#[test]
fn numbers_agree_with_std() {
    for s in ["7", "+7", "07", "", "+", "-7", "7.", "99999999999999999999", "1e3", " 7"] {
        assert_eq!(parse_u64(s.as_bytes()), s.parse::<u64>().ok(), "{s:?}");
    }
}

#[test]
fn decimal_digits_round_trip() {
    for n in [0usize, 7, 9, 10, 99, 100, 12345, 1 << 31, usize::MAX] {
        let mut out = b"n=".to_vec();
        push_decimal(n, &mut out);
        assert_eq!(out, format!("n={n}").into_bytes());
        assert_eq!(parse_u64(&out[2..]), Some(n as u64));
    }
}

#[test]
fn text_helpers() {
    assert_eq!(strip_prefix("HTTP/1.1", "HTTP/"), Some("1.1"));
    assert_eq!(strip_prefix("HTTP/", "HTTP/"), Some(""));
    assert_eq!(strip_prefix("HTTP", "HTTP/"), None);
    assert_eq!(strip_prefix("http/1.1", "HTTP/"), None);
    assert_eq!(strip_prefix("\u{e9}t\u{e9}", "\u{e9}"), Some("t\u{e9}"));
    assert_eq!(strip_prefix("abc", ""), Some("abc"));
    assert!(same_text("GET", "GET"));
    assert!(!same_text("GET", "get"));
    assert!(!same_text("GET", "GETS"));
    assert!(same_text("", ""));
    assert!(same_text_ignoring_ascii_case("Range", "rANGE"));
    assert!(!same_text_ignoring_ascii_case("Range", "Ranges"));
    assert!(!same_text_ignoring_ascii_case("Range", "Rang\u{e9}"));
    assert!(!same_text_ignoring_ascii_case("\u{c9}", "\u{e9}"));
    assert!(!same_text_ignoring_ascii_case("@", "`"));
    assert!(!same_text_ignoring_ascii_case("[", "{"));
    assert_eq!(ascii_lowercase(b'A'), b'a');
    assert_eq!(ascii_lowercase(b'Z'), b'z');
    assert_eq!(ascii_lowercase(b'a'), b'a');
    assert_eq!(ascii_lowercase(b'@'), b'@');
    assert_eq!(ascii_lowercase(b'['), b'[');
    assert_eq!(ascii_lowercase(0xc9), 0xc9);
    let mut out = vec![1u8, 2];
    append_bytes(&mut out, &[3, 4, 5]);
    append_bytes(&mut out, &[]);
    assert_eq!(out, [1, 2, 3, 4, 5]);
    assert_eq!(text_of(b"caf\xc3\xa9"), Some("caf\u{e9}".to_string()));
    assert_eq!(text_of(b""), Some(String::new()));
    assert_eq!(text_of(b"\xc3"), None);
    assert_eq!(text_of(b"\xed\xa0\x80"), None);
    assert_eq!(text_of(b"\xc0\x80"), None);
}

#[test]
fn request_as_text() {
    let raw = b"GET /a HTTP/1.1\r\nHost: x\r\nAccept:  */* \r\n\r\nhello";
    let request = Request::parse(raw).unwrap();
    assert_eq!(
        request.to_text(),
        "GET /a HTTP/1.1\nHost: x\nAccept: */*\n\n[Body: 5 bytes]\n"
    );
    let request = Request::parse("HEAD /\u{e9} HTTP/2".as_bytes()).unwrap();
    assert_eq!(request.to_text(), "HEAD /\u{e9} HTTP/2\n\n[Body: 0 bytes]\n");
}
