use gost_upstream::raw_http::chunked::{chunk, ChunkedBodyBuilder, FINAL_CHUNK};
use gost_upstream::raw_http::{parse_request, HeaderEntry, RawRequest};

#[test]
fn simple_chunk_format() {
    assert_eq!(chunk(b"abc"), b"3\r\nabc\r\n".to_vec());
}

#[test]
fn builder_matches_manual_concat() {
    let built = ChunkedBodyBuilder::new()
        .push_chunk(b"foo")
        .push_chunk(b"bar")
        .finish_with_final_chunk();
    let expected = [chunk(b"foo"), chunk(b"bar"), FINAL_CHUNK.to_vec()].concat();
    assert_eq!(built, expected);
}

#[test]
fn smuggled_second_request_after_final_chunk() {
    let smuggled = b"GET /admin HTTP/1.1\r\nHost: x\r\n\r\n";
    let built = ChunkedBodyBuilder::new()
        .push_chunk(b"0")
        .finish_with_final_chunk()
        .into_iter()
        .chain(smuggled.iter().copied())
        .collect::<Vec<u8>>();
    assert!(built.ends_with(smuggled));
}

#[test]
fn round_trip_builder_output() {
    let req = RawRequest::new("POST", "/", "HTTP/1.1")
        .header("Host", "example.com")
        .header("Content-Length", "5")
        .body(b"hello".to_vec());
    let bytes = req.to_bytes();
    let parsed = parse_request(&bytes);
    assert_eq!(parsed.to_bytes(), bytes);
    assert_eq!(parsed.header_values("host"), vec![b" example.com".as_slice()]);
}

#[test]
fn preserves_obfuscated_spacing_and_duplicates() {
    let raw = b"GET / HTTP/1.1\r\n\
Host: example.com\r\n\
Transfer-Encoding : chunked\r\n\
Transfer-Encoding: identity\r\n\
\r\n\
0\r\n\r\n";
    let parsed = parse_request(raw);
    assert_eq!(parsed.to_bytes(), raw.to_vec());

    let te = parsed.header_values("transfer-encoding");
    assert_eq!(te.len(), 2);
    assert_eq!(te[0], b" chunked".as_slice());
}

#[test]
fn line_without_colon_is_raw_entry() {
    let raw = b"GET / HTTP/1.1\r\nnot-a-header-line\r\nHost: x\r\n\r\n";
    let parsed = parse_request(raw);
    assert_eq!(parsed.to_bytes(), raw.to_vec());
    assert!(matches!(parsed.headers[0], HeaderEntry::Raw(_)));
}

#[test]
fn lf_only_request_round_trips() {
    let raw = b"GET / HTTP/1.1\nHost: example.com\n\nbody";
    let parsed = parse_request(raw);
    assert_eq!(parsed.to_bytes(), raw.to_vec());
}
