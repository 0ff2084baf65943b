use gost_upstream::ascii::{eq_ignore_ascii_case, trim_ascii_whitespace};
use gost_upstream::numerals::{bytes_to_hex, decimal_text, hex_bytes, parse_unsigned};
use gost_upstream::raw_http::chunked::{
    chunk, chunk_with_size_line, ChunkedBodyBuilder, FINAL_CHUNK,
};
use gost_upstream::text::{char_is_space, chars_of, first_two_words, trim_chars};

#[test]
fn chunk_sizes_are_hexadecimal() {
    assert_eq!(chunk(&[b'a'; 10])[..3], b"a\r\n"[..]);
    assert_eq!(chunk(&[b'a'; 255])[..4], b"ff\r\n"[..]);
    assert_eq!(chunk(&[b'a'; 256])[..5], b"100\r\n"[..]);
}

#[test]
fn an_empty_chunk_is_the_final_one() {
    assert_eq!(chunk(b""), FINAL_CHUNK.to_vec());
    assert_eq!(FINAL_CHUNK, *b"0\r\n\r\n");
}

#[test]
fn a_size_line_may_lie() {
    assert_eq!(chunk_with_size_line(b"5;ext=1", b"abc"), b"5;ext=1\r\nabc\r\n".to_vec());
}

#[test]
fn builder_adds_nothing_of_its_own() {
    let built = ChunkedBodyBuilder::default()
        .push_raw(b"junk")
        .push_chunk_with_size_line(b"zz", b"d")
        .finish_without_final_chunk();
    assert_eq!(built, b"junkzz\r\nd\r\n".to_vec());
    assert_eq!(ChunkedBodyBuilder::new().finish_with_final_chunk(), FINAL_CHUNK.to_vec());
}

#[test]
fn numerals_are_exact() {
    assert_eq!(hex_bytes(0), b"0".to_vec());
    assert_eq!(hex_bytes(0xdead_beef), b"deadbeef".to_vec());
    assert_eq!(hex_bytes(usize::MAX), b"ffffffffffffffff".to_vec());
    assert_eq!(bytes_to_hex(&[0x00, 0x0f, 0xa5]), "000fa5");
    assert_eq!(decimal_text(0), "0");
    assert_eq!(decimal_text(90210), "90210");
    assert_eq!(decimal_text(usize::MAX), "18446744073709551615");
}

fn parse(text: &str, max: usize) -> Option<usize> {
    parse_unsigned(&chars_of(text), max)
}

#[test]
fn numbers_are_read_as_the_standard_library_does() {
    assert_eq!(parse("0", 10), Some(0));
    assert_eq!(parse("+7", 10), Some(7));
    assert_eq!(parse("007", 10), Some(7));
    assert_eq!(parse("10", 10), Some(10));
    assert_eq!(parse("11", 10), None);
    assert_eq!(parse("", 10), None);
    assert_eq!(parse("+", 10), None);
    assert_eq!(parse("-1", 10), None);
    assert_eq!(parse("1 ", 10), None);
    assert_eq!(parse("1a", 100), None);
    assert_eq!(parse("18446744073709551615", usize::MAX), Some(usize::MAX));
    assert_eq!(parse("18446744073709551616", usize::MAX), None);
    for text in ["0", "+0", "65535", "65536", "٣", "++1", "000065535"] {
        assert_eq!(parse(text, 65535), text.parse::<u16>().ok().map(usize::from));
    }
}

#[test]
fn ascii_helpers_agree_with_the_standard_library() {
    assert_eq!(trim_ascii_whitespace(b" \t\r\n\x0ca b\x0b "), b"a b\x0b".as_slice());
    assert_eq!(trim_ascii_whitespace(b"  "), b"".as_slice());
    assert!(eq_ignore_ascii_case(b"AbZ@[", b"aBz@["));
    assert!(!eq_ignore_ascii_case(b"@", b"`"));
    assert!(!eq_ignore_ascii_case(b"a", b"ab"));
}

#[test]
fn spaces_are_those_of_unicode() {
    for code in 0..0x1_1000u32 {
        if let Some(c) = char::from_u32(code) {
            assert_eq!(char_is_space(c), c.is_whitespace(), "{code:x}");
        }
    }
}

#[test]
fn words_are_split_at_any_space() {
    let words = |line: &str| first_two_words(line);
    assert_eq!(words("GET /a HTTP/1.1\r\n"), ("GET".to_string(), "/a".to_string()));
    assert_eq!(words("\u{a0} a\u{2003}b"), ("a".to_string(), "b".to_string()));
    assert_eq!(words("one"), ("one".to_string(), String::new()));
    assert_eq!(words(" \t"), (String::new(), String::new()));
    let chars = chars_of(" \u{3000}x y\n");
    assert_eq!(trim_chars(&chars), ['x', ' ', 'y']);
}
