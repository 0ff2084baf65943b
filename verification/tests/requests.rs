use gost_upstream::raw_http::request::header_name_matches;
use gost_upstream::raw_http::{parse_request, HeaderEntry, RawRequest};

#[test]
fn new_request_has_no_headers() {
    let request = RawRequest::new("GET", "/a", "HTTP/1.0");
    assert_eq!(request.to_bytes(), b"GET /a HTTP/1.0\r\n\r\n".to_vec());
    assert!(request.header_values("host").is_empty());
}

#[test]
fn headers_keep_their_order() {
    let request = RawRequest::new("GET", "/", "HTTP/1.1")
        .header("B", "2")
        .header("A", "1")
        .header("B", "3");
    assert_eq!(
        request.to_bytes(),
        b"GET / HTTP/1.1\r\nB: 2\r\nA: 1\r\nB: 3\r\n\r\n".to_vec()
    );
    assert_eq!(request.header_values("b"), vec![b" 2".as_slice(), b" 3".as_slice()]);
}

#[test]
fn raw_pieces_are_written_as_given() {
    let request = RawRequest::new("GET", "/", "HTTP/1.1")
        .request_line_ending("\n")
        .header_raw("X\tY ", vec![0xffu8, 0x00], "\r")
        .raw_line("folded")
        .headers_terminator("\r\r")
        .body("tail");
    let mut expected = b"GET / HTTP/1.1\nX\tY :".to_vec();
    expected.extend_from_slice(&[0xff, 0x00]);
    expected.extend_from_slice(b"\rfolded\r\rtail");
    assert_eq!(request.to_bytes(), expected);
}

#[test]
fn names_match_without_padding_and_case() {
    assert!(header_name_matches(b" Content-Length\t", b"content-length"));
    assert!(header_name_matches(b"HOST", b"host"));
    assert!(!header_name_matches(b"Host:", b"host"));
    assert!(!header_name_matches(b"", b"host"));
}

#[test]
fn removing_leaves_other_lines_alone() {
    let request = RawRequest::new("GET", "/", "HTTP/1.1")
        .header("Keep", "1")
        .header("DROP", "2")
        .raw_line("no colon\r\n")
        .header_raw("drop ", "3", "\n")
        .header("Keep", "4");
    let left = request.remove_headers("drop");
    assert_eq!(
        left.to_bytes(),
        b"GET / HTTP/1.1\r\nKeep: 1\r\nno colon\r\nKeep: 4\r\n\r\n".to_vec()
    );
    assert!(left.header_values("drop").is_empty());
    assert_eq!(left.header_values("keep").len(), 2);
}

#[test]
fn fixing_the_length_replaces_all_declarations() {
    let request = RawRequest::new("POST", "/", "HTTP/1.1")
        .header("Content-Length", "7")
        .header("Host", "h")
        .header("content-length", "9")
        .body(vec![b'x'; 123])
        .fix_content_length();
    assert_eq!(request.header_values("content-length"), vec![b" 123".as_slice()]);
    let bytes = request.to_bytes();
    assert!(bytes.starts_with(b"POST / HTTP/1.1\r\nHost: h\r\nContent-Length: 123\r\n\r\nx"));
}

#[test]
fn fixing_an_empty_body_declares_zero() {
    let request = RawRequest::new("POST", "/", "HTTP/1.1").fix_content_length();
    assert_eq!(request.to_bytes(), b"POST / HTTP/1.1\r\nContent-Length: 0\r\n\r\n".to_vec());
}

#[test]
fn hex_writes_two_digits_per_byte() {
    let request = RawRequest::new("\u{1}", "/", "\u{7f}");
    assert_eq!(request.to_hex(), "01202f207f0d0a0d0a");
}

#[test]
fn lossy_text_replaces_what_is_not_utf8() {
    let request = RawRequest::new("GET", "/", "HTTP/1.1").body(vec![b'a', 0xff, b'b']);
    assert_eq!(request.to_string_lossy(), "GET / HTTP/1.1\r\n\r\na\u{fffd}b");
    let plain = RawRequest::new("GET", "/", "HTTP/1.1").body("é");
    assert_eq!(plain.to_string_lossy(), "GET / HTTP/1.1\r\n\r\né");
}

#[test]
fn parsing_loses_nothing() {
    let inputs: Vec<&[u8]> = vec![
        b"",
        b"\n",
        b"\r\n",
        b"GET",
        b"GET / HTTP/1.1",
        b"GET / HTTP/1.1\r\n",
        b"GET / HTTP/1.1\r\nHost: x",
        b"GET / HTTP/1.1\r\nHost: x\r\n",
        b"GET / HTTP/1.1\r\n\r\nbody\r\n\r\n",
        b"GET / HTTP/1.1\nA:1\r\nB\n: c\n\nrest",
        b"\r\r\n\r\n",
        b"a\rb: c\r\n\xff:\xfe\r\n\r\n\x00",
    ];
    for input in inputs {
        assert_eq!(parse_request(input).to_bytes(), input.to_vec());
    }
}

#[test]
fn parsing_splits_at_the_first_colon() {
    let request = parse_request(b"GET / HTTP/1.1\r\na:b:c\r\n: d\r\nnone\n\r\nbody");
    assert_eq!(request.headers.len(), 3);
    match &request.headers[0] {
        HeaderEntry::Header(header) => {
            assert_eq!(header.name, b"a".to_vec());
            assert_eq!(header.value, b"b:c".to_vec());
            assert_eq!(header.line_ending, b"\r\n".to_vec());
        }
        other => panic!("unexpected entry {other:?}"),
    }
    assert!(matches!(&request.headers[2], HeaderEntry::Raw(line) if line == b"none\n"));
    assert_eq!(request.header_values(""), vec![b" d".as_slice()]);
    assert_eq!(request.body, b"body".to_vec());
}

#[test]
fn parsing_gives_back_what_was_built() {
    let request = RawRequest::new("PUT", "/x", "HTTP/1.1")
        .header("Host", "h")
        .header_raw("T ", "\tv", "\n")
        .raw_line("folded line\r\n")
        .body("payload");
    assert_eq!(parse_request(&request.to_bytes()), request);
}

#[test]
fn what_follows_a_blank_line_is_body() {
    let heads: [&[u8]; 3] =
        [b"GET / HTTP/1.1\r\nA: 1\r\n\r\n", b"GET /\nA: 1\nraw\n\n", b"\n\n"];
    for head in heads {
        let before = parse_request(&[head, b"x: y"].concat());
        let mut after = parse_request(&[head, b"x: y", b"\r\n\r\nContent-Length: 3"].concat());
        assert_eq!(after.body, b"x: y\r\n\r\nContent-Length: 3".to_vec());
        after.body = before.body.clone();
        assert_eq!(after, before);
    }
}
