//! Laws of where lines, headers and messages end.

use super::parsing::is_line;
use super::requests::crlf;
use crate::connectors::reply::{ReadFailure, ReplyProgress, ReplyReader};
use crate::numerals::parse_unsigned;
use crate::proxy::framing::{
    blank_line, blank_line_at, content_length, declared_length, ends_headers, find_headers_end,
    headers_end, is_complete, law_framing_is_settled, lemma_body_starts_early,
    lemma_headers_end_from, lemma_headers_end_is, LineReader, MessageProgress, MessageReader,
    RequestReader,
};
use crate::raw_http::parse::{
    is_canonical_line, is_one_line, law_serialize_then_parse, parse_request,
    request_of,
};
use crate::raw_http::request::{
    line_bytes, lines_bytes, lines_view, request_bytes, HeaderEntry, RawRequest,
};
use crate::text::{lossy, trim_chars};
use vstd::prelude::*;
use vstd::utf8::{
    decode_utf8_encode_utf8, encode_utf8, encode_utf8_decode_utf8, encode_utf8_valid_utf8,
    valid_utf8,
};

verus! {

/// Whether the four bytes in front of an index are `\r\n\r\n`.
pub open spec fn ends_at(s: Seq<u8>, end: int) -> bool {
    4 <= end <= s.len() && s[end - 4] == 13 && s[end - 3] == 10 && s[end - 2] == 13 && s[end - 1]
        == 10
}

/// Whether an index is the one behind the first `\r\n\r\n`.
pub open spec fn first_ends_at(s: Seq<u8>, end: int) -> bool {
    ends_at(s, end) && forall|e: int| e < end ==> !#[trigger] ends_at(s, e)
}

/// Both ways to say where `\r\n\r\n` stands agree.
proof fn lemma_ends_at(s: Seq<u8>, end: int)
    ensures
        ends_at(s, end) == blank_line_at(s, end - 4),
{
    if 4 <= end <= s.len() {
        let window = s.subrange(end - 4, end);
        assert(window[0] == s[end - 4] && window[1] == s[end - 3] && window[2] == s[end - 2]
            && window[3] == s[end - 1]);
        if ends_at(s, end) {
            assert(window == blank_line());
        }
    }
}

/// The headers end behind the first `\r\n\r\n`.
proof fn lemma_first_ends_at(s: Seq<u8>, end: int)
    ensures
        first_ends_at(s, end) <==> end >= 0 && headers_end(s) == Some(end as nat),
        headers_end(s) is None ==> !ends_at(s, end),
{
    lemma_headers_end_from(s, 0);
    lemma_ends_at(s, end);
    if first_ends_at(s, end) {
        assert forall|j: int| 0 <= j < end - 4 implies !blank_line_at(s, j) by {
            lemma_ends_at(s, j + 4);
            assert(!ends_at(s, j + 4));
        }
        lemma_headers_end_is(s, 0, end as nat);
    }
    if end >= 0 && headers_end(s) == Some(end as nat) {
        assert forall|e: int| e < end implies !#[trigger] ends_at(s, e) by {
            lemma_ends_at(s, e);
        }
    }
}

/// The end of the headers is found exactly if `\r\n\r\n` is there, and it is behind
/// the first one.
pub proof fn law_find_headers_end(buf: &[u8], r: Option<usize>)
    requires
        call_ensures(find_headers_end, (buf,), r),
    ensures
        r matches Some(end) ==> first_ends_at(buf@, end as int),
        r is None ==> forall|e: int| !#[trigger] ends_at(buf@, e),
{
    match r {
        Some(end) => {
            lemma_first_ends_at(buf@, end as int);
        },
        None => {
            assert forall|e: int| !#[trigger] ends_at(buf@, e) by {
                lemma_first_ends_at(buf@, e);
            }
        },
    }
}

/// A message without a header found under `Content-Length` declares no body; with
/// one it declares the number in the first one, between whitespace, and none if there
/// is no such number.
pub proof fn law_content_length(
    message: &[u8],
    parsed: RawRequest,
    name: &str,
    values: Vec<&[u8]>,
    chars: &[char],
    core: &[char],
    max: usize,
    number: Option<usize>,
    n: usize,
)
    requires
        call_ensures(parse_request, (message,), parsed),
        name@ == "content-length"@,
        call_ensures(RawRequest::header_values, (&parsed, name), values),
        call_ensures(trim_chars, (chars,), core),
        max == usize::MAX,
        call_ensures(parse_unsigned, (core, max), number),
        call_ensures(content_length, (message,), n),
    ensures
        values@.len() == 0 ==> n == 0,
        values@.len() > 0 && !valid_utf8(values@[0]@) ==> n == 0,
        values@.len() > 0 && values@[0]@ == encode_utf8(chars@) ==> n == match number {
            Some(k) => k,
            None => 0,
        },
{
    let views = values@.map_values(|v: &[u8]| v@);
    assert(views.len() == values@.len());
    if values@.len() > 0 {
        assert(views[0] == values@[0]@);
        encode_utf8_valid_utf8(chars@);
        encode_utf8_decode_utf8(chars@);
    }
}

/// A new reader has read nothing.
pub proof fn law_new_message_reader(r: MessageReader, message: Vec<u8>)
    requires
        call_ensures(MessageReader::new, (), r),
        call_ensures(MessageReader::into_message, (r,), message),
    ensures
        message@.len() == 0,
{
}

/// A read adds its bytes to the message. The end of the stream closes it, a failure
/// fails it, and any other read completes it exactly if `\r\n\r\n` has arrived and as
/// many bytes behind it as the message declares.
pub proof fn law_on_read(
    reader: &mut MessageReader,
    read: Result<&[u8], ReadFailure>,
    progress: MessageProgress,
    before: Vec<u8>,
    after: Vec<u8>,
    arrived: &[u8],
    end: Option<usize>,
    length: usize,
)
    requires
        call_ensures(MessageReader::into_message, (*old(reader),), before),
        call_ensures(MessageReader::on_read, (reader, read), progress),
        call_ensures(MessageReader::into_message, (*final(reader),), after),
        arrived@ == after@,
        call_ensures(find_headers_end, (arrived,), end),
        call_ensures(content_length, (arrived,), length),
    ensures
        read matches Ok(data) ==> after@ == before@ + data@,
        read is Err ==> after@ == before@,
        read matches Ok(data) ==> (progress == if data@.len() == 0 {
            MessageProgress::Closed
        } else if end is Some && after@.len() - end->0 >= length {
            MessageProgress::Complete
        } else {
            MessageProgress::Partial
        }),
        read matches Err(failure) ==> (progress == if failure == ReadFailure::UnexpectedEof {
            MessageProgress::Closed
        } else {
            MessageProgress::Failed
        }),
{
}

/// Once `\r\n\r\n` has arrived, a message in which no header is found under
/// `Content-Length` is complete with the next read, whatever other headers it has.
pub proof fn law_no_length_is_complete(
    reader: &mut MessageReader,
    data: &[u8],
    progress: MessageProgress,
    after: Vec<u8>,
    arrived: &[u8],
    end: int,
    parsed: RawRequest,
    name: &str,
    values: Vec<&[u8]>,
)
    requires
        data@.len() > 0,
        call_ensures(MessageReader::on_read, (reader, Ok(data)), progress),
        call_ensures(MessageReader::into_message, (*final(reader),), after),
        arrived@ == after@,
        ends_at(arrived@, end),
        call_ensures(parse_request, (arrived,), parsed),
        name@ == "content-length"@,
        call_ensures(RawRequest::header_values, (&parsed, name), values),
        values@.len() == 0,
    ensures
        progress == MessageProgress::Complete,
{
    let views = values@.map_values(|v: &[u8]| v@);
    assert(views.len() == values@.len());
    lemma_first_ends_at(arrived@, end);
    lemma_headers_end_from(arrived@, 0);
}

/// Where a message is complete does not depend on the pieces in which it arrives: of
/// all that will ever arrive, exactly those first bytes are a complete message that
/// reach as far behind the first `\r\n\r\n` as the whole declares.
pub proof fn law_when_complete(
    reader: &mut MessageReader,
    data: &[u8],
    progress: MessageProgress,
    after: Vec<u8>,
    whole: &[u8],
    end: int,
    length: usize,
)
    requires
        data@.len() > 0,
        call_ensures(MessageReader::on_read, (reader, Ok(data)), progress),
        call_ensures(MessageReader::into_message, (*final(reader),), after),
        after@.len() <= whole@.len(),
        after@ == whole@.take(after@.len() as int),
        first_ends_at(whole@, end),
        call_ensures(content_length, (whole,), length),
    ensures
        progress == if after@.len() >= end + length {
            MessageProgress::Complete
        } else {
            MessageProgress::Partial
        },
{
    lemma_when_complete(after@, whole@, end);
}

/// Whether the first bytes of a message are complete.
proof fn lemma_when_complete(part: Seq<u8>, whole: Seq<u8>, end: int)
    requires
        part.len() <= whole.len(),
        part == whole.take(part.len() as int),
        first_ends_at(whole, end),
    ensures
        is_complete(part) <==> part.len() >= end + declared_length(whole),
{
    lemma_first_ends_at(whole, end);
    let more = whole.skip(part.len() as int);
    assert(part + more == whole);
    if headers_end(part) is Some {
        law_framing_is_settled(part, more);
    } else if part.len() >= end {
        assert(ends_at(part, end));
        lemma_first_ends_at(part, end);
    }
}

/// Whether an entry is one terminated line that is read back as it is.
pub open spec fn is_own_line(entry: HeaderEntry) -> bool {
    match entry {
        HeaderEntry::Header(h) => {
            &&& forall|i: int| 0 <= i < h.name@.len() ==> #[trigger] h.name@[i] != 58
            &&& is_line(h.name@ + seq![58u8] + h.value@, h.line_ending@)
        },
        HeaderEntry::Raw(bytes) => exists|content: Seq<u8>, ending: Seq<u8>|
            {
                &&& content.len() > 0
                &&& forall|i: int| 0 <= i < content.len() ==> #[trigger] content[i] != 58
                &&& is_line(content, ending)
                &&& bytes@ == #[trigger] (content + ending)
            },
    }
}

/// Whether a request consists of terminated lines, the last of them and the blank
/// line behind it terminated by `\r\n`.
pub open spec fn is_well_lined(request: RawRequest) -> bool {
    &&& is_line(request.request_line@, request.request_line_ending@)
    &&& forall|i: int|
        0 <= i < request.headers@.len() ==> is_own_line(#[trigger] request.headers@[i])
    &&& request.headers_terminator@ == crlf()
    &&& if request.headers@.len() == 0 {
        request.request_line_ending@ == crlf()
    } else {
        match request.headers@.last() {
            HeaderEntry::Header(h) => h.line_ending@ == crlf(),
            HeaderEntry::Raw(bytes) => bytes@.len() >= 2 && bytes@.skip(bytes@.len() - 2) == crlf(),
        }
    }
}

/// A line in plain terms is one line.
proof fn lemma_is_line(content: Seq<u8>, ending: Seq<u8>)
    requires
        is_line(content, ending),
    ensures
        is_one_line(content, ending),
{
    if content.contains(10u8) {
        let i = choose|i: int| 0 <= i < content.len() && content[i] == 10u8;
        assert(content[i] != 10);
    }
}

/// A well-lined request is what its own bytes denote, and its headers end right in
/// front of its body.
proof fn lemma_well_lined(request: RawRequest)
    requires
        is_well_lined(request),
    ensures
        request_of(request_bytes(request@)) == request@,
        first_ends_at(
            request_bytes(request@),
            request_bytes(request@).len() - request.body@.len(),
        ),
{
    let r = request@;
    let lines = lines_view(request.headers@);
    lemma_is_line(r.line, r.line_ending);
    assert forall|i: int| 0 <= i < lines.len() implies is_canonical_line(#[trigger] lines[i]) by {
        let entry = request.headers@[i];
        assert(is_own_line(entry));
        match entry {
            HeaderEntry::Header(h) => {
                lemma_is_line(h.name@ + seq![58u8] + h.value@, h.line_ending@);
                if h.name@.contains(58u8) {
                    let k = choose|k: int| 0 <= k < h.name@.len() && h.name@[k] == 58u8;
                    assert(h.name@[k] != 58);
                }
            },
            HeaderEntry::Raw(bytes) => {
                let (content, ending) = choose|content: Seq<u8>, ending: Seq<u8>|
                    {
                        &&& content.len() > 0
                        &&& forall|i: int| 0 <= i < content.len() ==> #[trigger] content[i] != 58
                        &&& is_line(content, ending)
                        &&& bytes@ == #[trigger] (content + ending)
                    };
                lemma_is_line(content, ending);
                if content.contains(58u8) {
                    let k = choose|k: int| 0 <= k < content.len() && content[k] == 58u8;
                    assert(content[k] != 58);
                }
            },
        }
    }
    law_serialize_then_parse(r);
    let message = request_bytes(r);
    let end = message.len() - r.body.len();
    let head = r.line + r.line_ending + lines_bytes(lines);
    assert(message == head + r.terminator + r.body);
    assert(end == head.len() + 2);
    assert(head.len() >= 2 && head[head.len() - 2] == 13 && head[head.len() - 1] == 10) by {
        if lines.len() == 0 {
            assert(lines_bytes(lines) == Seq::<u8>::empty());
            assert(head == r.line + r.line_ending);
        } else {
            let last = line_bytes(lines.last());
            assert(lines.last() == request.headers@.last()@);
            assert(head == r.line + r.line_ending + lines_bytes(lines.drop_last()) + last);
            match request.headers@.last() {
                HeaderEntry::Header(h) => {
                    assert(last[last.len() - 2] == 13 && last[last.len() - 1] == 10);
                },
                HeaderEntry::Raw(bytes) => {
                    let tail = bytes@.skip(bytes@.len() - 2);
                    assert(tail[0] == last[last.len() - 2] && tail[1] == last[last.len() - 1]);
                },
            }
        }
    }
    assert(message[end - 4] == head[head.len() - 2]);
    assert(message[end - 3] == head[head.len() - 1]);
    assert(message[end - 2] == r.terminator[0]);
    assert(message[end - 1] == r.terminator[1]);
    assert(ends_at(message, end));
    assert forall|e: int| e < end implies !#[trigger] ends_at(message, e) by {
        lemma_ends_at(message, e);
        if blank_line_at(message, e - 4) {
            lemma_body_starts_early(message, e - 4);
        }
    }
}

/// A request of terminated lines is one message: read from a stream, in whatever
/// pieces, it is complete with the last byte of the body that it declares and not
/// before. If no header is found under `Content-Length` that is the last byte of the
/// blank line.
pub proof fn law_request_is_one_message(
    request: &RawRequest,
    whole: &[u8],
    bytes: Vec<u8>,
    name: &str,
    values: Vec<&[u8]>,
    length: usize,
    reader: &mut MessageReader,
    data: &[u8],
    progress: MessageProgress,
    after: Vec<u8>,
)
    requires
        is_well_lined(*request),
        call_ensures(RawRequest::to_bytes, (request,), bytes),
        whole@ == bytes@,
        name@ == "content-length"@,
        call_ensures(RawRequest::header_values, (request, name), values),
        call_ensures(content_length, (whole,), length),
        data@.len() > 0,
        call_ensures(MessageReader::on_read, (reader, Ok(data)), progress),
        call_ensures(MessageReader::into_message, (*final(reader),), after),
        after@.len() <= whole@.len(),
        after@ == whole@.take(after@.len() as int),
    ensures
        values@.len() == 0 ==> length == 0,
        progress == if after@.len() >= whole@.len() - request.body@.len() + length {
            MessageProgress::Complete
        } else {
            MessageProgress::Partial
        },
{
    lemma_well_lined(*request);
    lemma_when_complete(after@, whole@, whole@.len() - request.body@.len());
    let views = values@.map_values(|v: &[u8]| v@);
    assert(views.len() == values@.len());
}

/// A line ends with its line feed or with the stream, and is every byte read so far.
pub proof fn law_on_byte(
    reader: &mut LineReader,
    byte: Option<u8>,
    done: bool,
    before: Vec<u8>,
    after: Vec<u8>,
    text: String,
)
    requires
        call_ensures(LineReader::into_bytes, (*old(reader),), before),
        call_ensures(LineReader::on_byte, (reader, byte), done),
        call_ensures(LineReader::into_bytes, (*final(reader),), after),
        call_ensures(LineReader::into_text, (*final(reader),), text),
    ensures
        byte matches Some(b) ==> after@ == before@.push(b) && done == (b == 10),
        byte is None ==> after@ == before@ && done,
        text@ == lossy(after@),
        valid_utf8(after@) ==> encode_utf8(text@) == after@,
{
    if valid_utf8(after@) {
        decode_utf8_encode_utf8(after@);
    }
}

/// A new line is empty.
pub proof fn law_new_line_reader(r: LineReader, line: Vec<u8>)
    requires
        call_ensures(LineReader::new, (), r),
        call_ensures(LineReader::into_bytes, (r,), line),
    ensures
        line@.len() == 0,
{
}

/// Headers end with the line `\r\n` or with the stream, and with no other line.
pub proof fn law_ends_headers(line: &[u8], r: bool)
    requires
        call_ensures(ends_headers, (line,), r),
    ensures
        r == (line@.len() == 0 || line@ == crlf()),
{
}

/// A request read from a client begins with the line `method path HTTP/1.1`; behind
/// it stand the lines and the body as they were read. The body to be read is as long
/// as what has been read declares.
pub proof fn law_request_reader(
    method: &str,
    path: &str,
    begun: RequestReader,
    begun_bytes: Vec<u8>,
    reader: &mut RequestReader,
    line: &[u8],
    done: bool,
    nothing: &[u8],
    body: &[u8],
    before: Vec<u8>,
    after: Vec<u8>,
    finished: Vec<u8>,
    so_far: &[u8],
    length: usize,
    declared: usize,
)
    requires
        nothing@.len() == 0,
        call_ensures(RequestReader::new, (method, path), begun),
        call_ensures(RequestReader::finish, (begun, nothing), begun_bytes),
        call_ensures(RequestReader::finish, (*old(reader), nothing), before),
        call_ensures(RequestReader::on_line, (reader, line), done),
        call_ensures(RequestReader::finish, (*final(reader), nothing), after),
        call_ensures(RequestReader::finish, (*final(reader), body), finished),
        so_far@ == after@,
        call_ensures(RequestReader::body_length, (&*final(reader),), length),
        call_ensures(content_length, (so_far,), declared),
    ensures
        begun_bytes@ == encode_utf8(method@) + seq![32u8] + encode_utf8(path@) + encode_utf8(
            " HTTP/1.1\r\n"@,
        ),
        done == (line@.len() == 0 || line@ == crlf()),
        after@ == before@ + line@,
        finished@ == after@ + body@,
        length == declared,
{
    assert(nothing@ == Seq::<u8>::empty());
    assert(begun@ + nothing@ == begun@);
    assert(old(reader)@ + nothing@ == old(reader)@);
    assert(final(reader)@ + nothing@ == final(reader)@);
}

/// A reply is every byte that was read. The end of the stream and silence complete
/// it, bytes do not, and any other failure fails it.
pub proof fn law_reply_on_read(
    reader: &mut ReplyReader,
    read: Result<&[u8], ReadFailure>,
    progress: ReplyProgress,
    before: Vec<u8>,
    after: Vec<u8>,
)
    requires
        call_ensures(ReplyReader::into_response, (*old(reader),), before),
        call_ensures(ReplyReader::on_read, (reader, read), progress),
        call_ensures(ReplyReader::into_response, (*final(reader),), after),
    ensures
        read matches Ok(data) ==> after@ == before@ + data@,
        read is Err ==> after@ == before@,
        read matches Ok(data) ==> (progress == if data@.len() == 0 {
            ReplyProgress::Done
        } else {
            ReplyProgress::More
        }),
        read matches Err(failure) ==> (progress == if failure == ReadFailure::WouldBlock || failure
            == ReadFailure::TimedOut {
            ReplyProgress::Done
        } else {
            ReplyProgress::Failed
        }),
{
}

/// A new reply is empty.
pub proof fn law_new_reply_reader(r: ReplyReader, response: Vec<u8>)
    requires
        call_ensures(ReplyReader::new, (), r),
        call_ensures(ReplyReader::into_response, (r,), response),
    ensures
        response@.len() == 0,
{
}

} // verus!
