use gost_upstream::connectors::reply::{ReadFailure, ReplyProgress, ReplyReader};
use gost_upstream::proxy::framing::{
    content_length, ends_headers, find_headers_end, LineReader, MessageProgress, MessageReader,
    RequestReader,
};
use gost_upstream::raw_http::RawRequest;

#[test]
fn headers_end_behind_the_first_blank_line() {
    assert_eq!(find_headers_end(b""), None);
    assert_eq!(find_headers_end(b"\r\n\r"), None);
    assert_eq!(find_headers_end(b"\r\n\r\n"), Some(4));
    assert_eq!(find_headers_end(b"a\r\n\r\nb\r\n\r\n"), Some(5));
    assert_eq!(find_headers_end(b"a\n\nb"), None);
    assert_eq!(find_headers_end(b"\r\r\n\r\n"), Some(5));
}

#[test]
fn declared_lengths() {
    assert_eq!(content_length(b"POST / HTTP/1.1\r\nContent-Length: 12\r\n\r\n"), 12);
    assert_eq!(content_length(b"POST / HTTP/1.1\r\ncontent-length :\t+7 \r\n\r\n"), 7);
    assert_eq!(content_length(b"POST / HTTP/1.1\r\nContent-Length: 1\r\nContent-Length: 2\r\n\r\n"), 1);
    assert_eq!(content_length(b"POST / HTTP/1.1\r\nContent-Length: x\r\nContent-Length: 2\r\n\r\n"), 0);
    assert_eq!(content_length(b"POST / HTTP/1.1\r\nContent-Length: \xff\r\n\r\n"), 0);
    assert_eq!(content_length(b"POST / HTTP/1.1\r\nContent-Length: 99999999999999999999\r\n\r\n"), 0);
    assert_eq!(content_length(b"GET / HTTP/1.1\r\n\r\nContent-Length: 5"), 0);
}

#[test]
fn message_arrives_in_pieces() {
    let mut reader = MessageReader::new();
    assert_eq!(reader.on_read(Ok(b"POST / HTTP/1.1\r\nContent-Le")), MessageProgress::Partial);
    assert_eq!(reader.on_read(Ok(b"ngth: 5\r\n\r")), MessageProgress::Partial);
    assert_eq!(reader.on_read(Ok(b"\nhel")), MessageProgress::Partial);
    assert_eq!(reader.on_read(Ok(b"lo")), MessageProgress::Complete);
    assert_eq!(
        reader.into_message(),
        b"POST / HTTP/1.1\r\nContent-Length: 5\r\n\r\nhello".to_vec()
    );
}

#[test]
fn message_may_be_followed_by_more() {
    let mut reader = MessageReader::new();
    let bytes = b"GET / HTTP/1.1\r\n\r\nGET /b HTTP/1.1\r\n";
    assert_eq!(reader.on_read(Ok(bytes)), MessageProgress::Complete);
    assert_eq!(reader.into_message(), bytes.to_vec());
}

#[test]
fn message_stream_can_end_or_fail() {
    let mut reader = MessageReader::new();
    assert_eq!(reader.on_read(Ok(b"")), MessageProgress::Closed);
    assert_eq!(reader.on_read(Err(ReadFailure::UnexpectedEof)), MessageProgress::Closed);
    assert_eq!(reader.on_read(Err(ReadFailure::TimedOut)), MessageProgress::Failed);
    assert_eq!(reader.on_read(Err(ReadFailure::WouldBlock)), MessageProgress::Failed);
    assert_eq!(reader.on_read(Err(ReadFailure::Other)), MessageProgress::Failed);
}

#[test]
fn huge_length_is_never_reached() {
    let mut reader = MessageReader::new();
    let head = format!("POST / HTTP/1.1\r\nContent-Length: {}\r\n\r\n", usize::MAX);
    assert_eq!(reader.on_read(Ok(head.as_bytes())), MessageProgress::Partial);
}

#[test]
fn fixed_length_completes_a_message() {
    let request = RawRequest::new("POST", "/", "HTTP/1.1")
        .header("Host", "h")
        .body("twelve bytes")
        .fix_content_length();
    let bytes = request.to_bytes();
    assert_eq!(content_length(&bytes), 12);
    let mut reader = MessageReader::new();
    assert_eq!(reader.on_read(Ok(&bytes[..bytes.len() - 1])), MessageProgress::Partial);
    assert_eq!(reader.on_read(Ok(&bytes[bytes.len() - 1..])), MessageProgress::Complete);
}

fn read_line(input: &[u8]) -> (LineReader, usize) {
    let mut reader = LineReader::new();
    let mut taken = 0;
    loop {
        let byte = input.get(taken).copied();
        if byte.is_some() {
            taken += 1;
        }
        if reader.on_byte(byte) {
            return (reader, taken);
        }
    }
}

#[test]
fn line_reader_takes_one_line() {
    let (reader, taken) = read_line(b"CONNECT a:1 HTTP/1.1\r\nrest");
    assert_eq!(taken, 22);
    assert_eq!(reader.into_bytes(), b"CONNECT a:1 HTTP/1.1\r\n".to_vec());
    let (reader, taken) = read_line(b"no end");
    assert_eq!(taken, 6);
    assert_eq!(reader.into_text(), "no end");
    let (reader, _) = read_line(b"");
    assert_eq!(reader.into_text(), "");
    let (reader, _) = read_line(b"a\xffb\n");
    assert_eq!(reader.into_text(), "a\u{fffd}b\n");
}

#[test]
fn blank_line_ends_headers() {
    assert!(ends_headers(b"\r\n"));
    assert!(ends_headers(b""));
    assert!(!ends_headers(b"\n"));
    assert!(!ends_headers(b"A: b\r\n"));
}

#[test]
fn plain_request_is_put_into_origin_form() {
    let mut reader = RequestReader::new("POST", "/x");
    assert!(!reader.on_line(b"Host: a\r\n"));
    assert!(!reader.on_line(b"X: \xff\r\n"));
    assert!(!reader.on_line(b"Content-Length: 3\r\n"));
    assert!(reader.on_line(b"\r\n"));
    assert_eq!(reader.body_length(), 3);
    assert_eq!(
        reader.finish(b"abc"),
        b"POST /x HTTP/1.1\r\nHost: a\r\nX: \xff\r\nContent-Length: 3\r\n\r\nabc".to_vec()
    );
}

#[test]
fn plain_request_without_body() {
    let mut reader = RequestReader::new("GET", "/");
    assert!(reader.on_line(b"\r\n"));
    assert_eq!(reader.body_length(), 0);
    assert_eq!(reader.finish(b""), b"GET / HTTP/1.1\r\n\r\n".to_vec());
}

#[test]
fn reply_ends_with_the_stream_or_with_silence() {
    for end in [Ok(b"".as_slice()), Err(ReadFailure::TimedOut), Err(ReadFailure::WouldBlock)] {
        let mut reader = ReplyReader::new();
        assert_eq!(reader.on_read(Ok(b"HTTP/1.1 200 OK\r\n\r\n")), ReplyProgress::More);
        assert_eq!(reader.on_read(Ok(b"HTTP/1.1 404")), ReplyProgress::More);
        assert_eq!(reader.on_read(end), ReplyProgress::Done);
        assert_eq!(reader.into_response(), b"HTTP/1.1 200 OK\r\n\r\nHTTP/1.1 404".to_vec());
    }
}

#[test]
fn reply_stream_can_fail() {
    let mut reader = ReplyReader::new();
    assert_eq!(reader.on_read(Err(ReadFailure::UnexpectedEof)), ReplyProgress::Failed);
    assert_eq!(reader.on_read(Err(ReadFailure::Other)), ReplyProgress::Failed);
}
